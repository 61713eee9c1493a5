use registrobr_finder::report::output_text;

#[test]
fn nothing_is_written_for_no_domain() {
    assert_eq!(output_text(&vec![]), None);
}

#[test]
fn domains_are_written_one_to_a_line() {
    assert_eq!(
        output_text(&vec!["aa.com.br".to_string()]),
        Some("aa.com.br\n".to_string())
    );
    assert_eq!(
        output_text(&vec![
            "aa.com.br".to_string(),
            "zz.com.br".to_string(),
            "a1.com.br".to_string()
        ]),
        Some("aa.com.br\nzz.com.br\na1.com.br\n".to_string())
    );
}
