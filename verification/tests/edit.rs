use rp::edit::{splice_expansions, splice_template};
use rp::template::find_unclosed_group;

#[test]
fn splice_template_puts_the_template_in_each_span() {
    let mut buf = vec![];
    assert_eq!(splice_template(&mut buf, b"0123456789", &[(1, 3), (3, 4), (8, 8)], b"--", true), 3);
    assert_eq!(buf, b"0----4567--89");
}

#[test]
fn splice_template_stops_after_the_first_span_unless_all() {
    let mut buf = vec![];
    assert_eq!(splice_template(&mut buf, b"0123456789", &[(1, 3), (3, 4), (8, 8)], b"--", false), 1);
    assert_eq!(buf, b"0--3456789");
}

#[test]
fn splice_template_copies_the_line_where_no_span_is_given() {
    for all in [false, true] {
        let mut buf = b">".to_vec();
        assert_eq!(splice_template(&mut buf, b"0123", &[], b"--", all), 0);
        assert_eq!(buf, b">0123");
    }
}

#[test]
fn splice_template_takes_spans_at_both_ends() {
    let mut buf = vec![];
    assert_eq!(splice_template(&mut buf, b"abc", &[(0, 0), (0, 1), (3, 3)], b"|", true), 3);
    assert_eq!(buf, b"||bc|");
    let mut buf = vec![];
    assert_eq!(splice_template(&mut buf, b"abc", &[(0, 3)], b"", true), 1);
    assert_eq!(buf, b"");
}

#[test]
fn splice_expansions_puts_in_what_comes_with_each_span() {
    let found = [(0, 1, b"one".to_vec()), (2, 4, b"".to_vec()), (4, 4, b"three".to_vec())];
    let mut buf = b"> ".to_vec();
    assert_eq!(splice_expansions(&mut buf, b"a-bc-d", &found, true), 3);
    assert_eq!(buf, b"> one-three-d");
    let mut buf = b"> ".to_vec();
    assert_eq!(splice_expansions(&mut buf, b"a-bc-d", &found, false), 1);
    assert_eq!(buf, b"> one-bc-d");
    let mut buf = b"> ".to_vec();
    assert_eq!(splice_expansions(&mut buf, b"a-bc-d", &[], true), 0);
    assert_eq!(buf, b"> a-bc-d");
}

#[test]
fn an_unclosed_brace_is_found_at_its_dollar() {
    assert_eq!(find_unclosed_group(b"${"), Some(0));
    assert_eq!(find_unclosed_group(b"${name"), Some(0));
    assert_eq!(find_unclosed_group(b"a $1 ${2"), Some(5));
    assert_eq!(find_unclosed_group(b"${a} ${b} ${c"), Some(10));
    assert_eq!(find_unclosed_group(b"$$${"), Some(2));
    assert_eq!(find_unclosed_group(b"$$$$${"), Some(4));
    assert_eq!(find_unclosed_group(b"}${"), Some(1));
}

#[test]
fn a_template_without_an_unclosed_brace_has_none() {
    assert_eq!(find_unclosed_group(b""), None);
    assert_eq!(find_unclosed_group(b"plain"), None);
    assert_eq!(find_unclosed_group(b"$"), None);
    assert_eq!(find_unclosed_group(b"{"), None);
    assert_eq!(find_unclosed_group(b"$1 $name ${name} ${1}"), None);
    assert_eq!(find_unclosed_group(b"$${"), None);
    assert_eq!(find_unclosed_group(b"$$$${"), None);
    assert_eq!(find_unclosed_group(b"${ and much later }"), None);
    assert_eq!(find_unclosed_group(b"${${}"), None);
    assert_eq!(find_unclosed_group(b"$ {"), None);
}
