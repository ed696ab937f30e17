use playground::regex::{FsmAction, Regex, FSM_COLUMN_SIZE, FSM_NEW_LINE};

fn matches(pattern: &str, input: &str) -> bool {
    Regex::compile(pattern).match_str(input)
}

#[test]
fn literal_pattern_matches_itself() {
    assert!(matches("abc", "abc"));
}

#[test]
fn trailing_input_is_rejected() {
    // The accept index is reached after `abc`, but `d` is left unread.
    assert!(!matches("abc", "abcd"));
    assert!(!matches("a.", "abc"));
}

#[test]
fn literal_pattern_rejects_other_inputs() {
    assert!(!matches("abc", "abd"));
    assert!(!matches("abc", "ab"));
    assert!(!matches("abc", ""));
    assert!(!matches("abc", "xabc"));
}

#[test]
fn star_repeats_preceding_atom() {
    assert!(matches("a*bc", "bc"));
    assert!(matches("a*bc", "abc"));
    assert!(matches("a*bc", "aaabc"));
    assert!(!matches("a*bc", "cbc"));
}

#[test]
fn star_demo_inputs() {
    assert!(!matches("a*bc", "Hello, World"));
    assert!(!matches("a*bc", "bbc"));
    assert!(!matches("a*bc", "cbd"));
    assert!(!matches("a*bc", "abcd"));
}

#[test]
fn star_is_greedy() {
    // The repetition consumes every `a`, leaving none for the last atom.
    assert!(!matches("a*a", "aa"));
    assert!(matches("ba*", "b"));
    assert!(matches("ba*", "baaa"));
}

#[test]
fn anchor_requires_end_of_input() {
    assert!(matches(".bc$", "abc"));
    assert!(!matches(".bc$", "abcd"));
    assert!(matches("$", ""));
    assert!(!matches("$", "a"));
}

#[test]
fn empty_pattern() {
    assert!(matches("", ""));
    assert!(!matches("", "x"));
    assert!(!matches("", "é"));
}

#[test]
fn wildcard_matches_printable_symbols_only() {
    assert!(matches(".", "a"));
    assert!(matches(".", " "));
    assert!(matches(".", "~"));
    assert!(!matches(".", "\n"));
    assert!(!matches(".", "\u{7f}"));
    assert!(!matches(".", "é"));
    assert!(!matches(".", ""));
}

#[test]
fn symbols_outside_the_table_never_match() {
    assert!(!matches("é", "é"));
    assert!(!matches("a.", "aé"));
    assert!(!matches("a*", "aaé"));
    // Input never holds the end-of-input symbol; as a pattern symbol it sets
    // the end-of-input slot.
    assert!(!matches("\u{81}", "\u{81}"));
    assert!(matches("\u{81}", ""));
}

#[test]
fn leading_or_doubled_star_is_ignored() {
    assert!(matches("*a", "a"));
    assert!(!matches("*a", "b"));
    assert!(matches("a**b", "aab"));
    assert!(matches("a**b", "b"));
}

#[test]
fn compiling_twice_gives_same_verdicts() {
    let r1 = Regex::compile("a*b.c$");
    let r2 = Regex::compile("a*b.c$");
    for input in ["abxc", "bxc", "aabxcd", "", "b c", "ac"] {
        assert_eq!(r1.match_str(input), r2.match_str(input));
    }
    // Matching does not change the machine.
    assert_eq!(r1.match_str("abxc"), r1.match_str("abxc"));
    assert!(r1.match_str("abxc"));
}

#[test]
fn compiled_table_layout() {
    let r = Regex::compile("a*bc");
    assert_eq!(r.len(), 4);
    // The repeated atom loops on `a` and falls through on anything else.
    assert_eq!(r.action(1, 'a' as usize), FsmAction { next: 1, offset: 1 });
    assert_eq!(r.action(1, 'b' as usize), FsmAction { next: 2, offset: 0 });
    assert_eq!(r.action(1, FSM_NEW_LINE), FsmAction { next: 2, offset: 0 });
    assert_eq!(r.action(2, 'b' as usize), FsmAction { next: 3, offset: 1 });
    assert_eq!(r.action(2, 'c' as usize), FsmAction { next: 0, offset: 0 });
    assert_eq!(r.action(3, 'c' as usize), FsmAction { next: 4, offset: 1 });
    let anchored = Regex::compile("$");
    assert_eq!(anchored.action(1, FSM_NEW_LINE), FsmAction { next: 2, offset: 1 });
    assert_eq!(FSM_COLUMN_SIZE, 130);
    let marker = Regex::compile("\u{81}");
    assert_eq!(marker.action(1, FSM_NEW_LINE), FsmAction { next: 2, offset: 1 });
}
