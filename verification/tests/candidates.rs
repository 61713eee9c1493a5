use registrobr_finder::candidates::{parse_candidate_list, select_candidates};

fn strings(items: &[&str]) -> Vec<String> {
    items.iter().map(|s| s.to_string()).collect()
}

#[test]
fn list_is_cut_at_commas_and_trimmed() {
    assert_eq!(parse_candidate_list("ab,cd,ef"), strings(&["ab", "cd", "ef"]));
    assert_eq!(parse_candidate_list(" ab , cd,ef  "), strings(&["ab", "cd", "ef"]));
    assert_eq!(parse_candidate_list("ab"), strings(&["ab"]));
    assert_eq!(parse_candidate_list("a b,c"), strings(&["a b", "c"]));
}

#[test]
fn empty_pieces_are_kept() {
    assert_eq!(parse_candidate_list(""), strings(&[""]));
    assert_eq!(parse_candidate_list(","), strings(&["", ""]));
    assert_eq!(parse_candidate_list("ab,"), strings(&["ab", ""]));
    assert_eq!(parse_candidate_list(",ab"), strings(&["", "ab"]));
    assert_eq!(parse_candidate_list("ab,,cd"), strings(&["ab", "", "cd"]));
    assert_eq!(parse_candidate_list(" , "), strings(&["", ""]));
}

#[test]
fn list_parsing_agrees_with_split_and_trim() {
    for list in ["x", "x,y", " x ,\ty\n", ",,", "google, uol ,  terra", "a,b,c,d,e,f", " "] {
        let expected: Vec<String> = list.split(',').map(|s| s.trim().to_string()).collect();
        assert_eq!(parse_candidate_list(list), expected);
    }
}

#[test]
fn a_list_takes_the_place_of_generation() {
    assert_eq!(
        select_candidates(Some("uol, terra"), 2, false, false),
        Some(strings(&["uol", "terra"]))
    );
    assert_eq!(
        select_candidates(Some("x"), 255, false, false),
        Some(strings(&["x"]))
    );
}

#[test]
fn without_a_list_candidates_are_generated() {
    let generated = select_candidates(None, 2, false, true).unwrap();
    assert_eq!(generated.len(), 100);
    assert_eq!(generated[0], "00");
    assert_eq!(generated[99], "99");
    let letters = select_candidates(None, 1, true, false).unwrap();
    assert_eq!(letters.len(), 26);
}

#[test]
fn too_many_candidates_are_refused() {
    assert_eq!(select_candidates(None, 255, false, false), None);
    assert_eq!(select_candidates(None, 100, true, false), None);
}
