use dnsfuzz::line_diff::{diff_lines, diff_with_context, get_indentation_level};
use dnsfuzz::spawner::{SpawnAction, SpawnOutcome, SpawnerState, NANOS_PER_SEC};
use dnsfuzz::text::{decimal, split_dns_string};

#[test]
fn spawn_timeout_adapts() {
    let mut st = SpawnerState::new();
    assert_eq!(st.spawn_timeout, 120 * NANOS_PER_SEC);
    assert_eq!(st.wait_limit(), 240 * NANOS_PER_SEC);
    assert_eq!(st.step(SpawnOutcome::Ready(60 * NANOS_PER_SEC)), SpawnAction::Deliver);
    assert_eq!(st.spawn_timeout, 110 * NANOS_PER_SEC);
    assert_eq!(st.step(SpawnOutcome::TimedOut), SpawnAction::Retry);
    assert_eq!(st.spawn_timeout, 132 * NANOS_PER_SEC);
    st.spawn_timeout = NANOS_PER_SEC;
    assert_eq!(st.wait_limit(), 10 * NANOS_PER_SEC);
}

#[test]
fn spawner_aborts_after_eleven_errors() {
    let mut st = SpawnerState::new();
    for _ in 0..10 {
        assert_eq!(st.step(SpawnOutcome::Failed), SpawnAction::Retry);
    }
    assert_eq!(st.step(SpawnOutcome::Failed), SpawnAction::Abort);
    assert_eq!(st.total_errors, 11);
    st.step(SpawnOutcome::Ready(0));
    assert_eq!(st.curr_errors, 0);
    assert_eq!(st.total_spawned, 1);
}

#[test]
fn indentation_counts_leading_ascii_whitespace() {
    assert_eq!(get_indentation_level("    a"), 4);
    assert_eq!(get_indentation_level("\t\n x"), 3);
    assert_eq!(get_indentation_level("x  "), 0);
    assert_eq!(get_indentation_level(""), 0);
}

static LEFT_1: &str = r#"
{
    ((
        a
    ))
    c
    [[[[
        1
        ]]]] // Test a closing line with a different indentation level
    (((((
        b // Test ending without removing all levels
"#;
static RIGHT_1: &str = r#"
{
    ((
        a
    ))
    [[[
        2 // Test large addition on one side
    ]]]
    c
    [[[[
        22
        ]]]] // Test a closing line with a different indentation level
    (((((
        b // Test ending without removing all levels
"#;

fn line(changed: bool, l: &str, r: &str) -> (bool, String, String) {
    (changed, l.to_string(), r.to_string())
}

#[test]
fn simple_diff() {
    let diff = diff_lines(LEFT_1, RIGHT_1);
    let expected = vec![
        line(false, "", ""),
        line(false, "{", "{"),
        line(false, "    ((", "    (("),
        line(false, "        a", "        a"),
        line(false, "    ))", "    ))"),
        line(true, "    ", "    [[["),
        line(true, "        ", "        2 // Test large addition on one side"),
        line(true, "    ", "    ]]]"),
        line(false, "    c", "    c"),
        line(false, "    [[[[", "    [[[["),
        line(true, "        1", "        22"),
        line(
            false,
            "        ]]]] // Test a closing line with a different indentation level",
            "        ]]]] // Test a closing line with a different indentation level",
        ),
        line(false, "    (((((", "    ((((("),
        line(
            false,
            "        b // Test ending without removing all levels",
            "        b // Test ending without removing all levels",
        ),
        line(false, "", ""),
    ];
    assert_eq!(expected, diff);
}

#[test]
fn lone_deletions_are_padded_with_their_indentation() {
    let diff = diff_lines("  a\n  b\n", "  a\n");
    assert_eq!(diff, vec![line(false, "  a", "  a"), line(true, "  b", "  "), line(false, "", "")]);
}

#[test]
fn decimal_text() {
    assert_eq!(decimal(0), "0");
    assert_eq!(decimal(10), "10");
    assert_eq!(decimal(u64::MAX), u64::MAX.to_string());
}

#[test]
fn dns_strings_split_on_unescaped_dots() {
    assert_eq!(split_dns_string("a.b\\.c.d"), vec!["a", "b\\.c", "d"]);
    assert_eq!(split_dns_string("x.0000.fuzz."), vec!["x", "0000", "fuzz", ""]);
    assert_eq!(split_dns_string("a\\\\.b"), vec!["a\\\\", "b"]);
    assert_eq!(split_dns_string(""), vec![""]);
}

#[test]
fn simple_diff_with_context() {
    let diff = diff_lines(LEFT_1, RIGHT_1);
    let context_diff = diff_with_context(&diff);
    let expected = vec![
        line(false, "{", "{"),
        line(true, "    ", "    [[["),
        line(true, "        ", "        2 // Test large addition on one side"),
        line(true, "    ", "    ]]]"),
        line(false, "    [[[[", "    [[[["),
        line(true, "        1", "        22"),
        line(false, "    (((((", "    ((((("),
        line(false, "", ""),
    ];
    assert_eq!(expected, context_diff);
}
