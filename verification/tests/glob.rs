use bosun::glob::segment_match_counted;
use bosun::config::glob_match;
use bosun::glob::{segment_match, split_segments};

fn chars(s: &str) -> Vec<char> {
    s.chars().collect()
}

fn segs(s: &str) -> Vec<Vec<char>> {
    split_segments(s)
}

#[test]
fn segments_drop_empty_pieces() {
    assert_eq!(segs("/api//events/"), vec![chars("api"), chars("events")]);
    assert_eq!(segs("///"), Vec::<Vec<char>>::new());
    assert_eq!(segs(""), Vec::<Vec<char>>::new());
    assert_eq!(segs("a/b"), vec![chars("a"), chars("b")]);
    assert_eq!(segs("//é/ü"), vec![chars("é"), chars("ü")]);
}

#[test]
fn segment_wildcards() {
    assert!(segment_match(&chars("*"), &chars("")));
    assert!(segment_match(&chars("*"), &chars("anything")));
    assert!(segment_match(&chars("latest.*"), &chars("latest.jpg")));
    assert!(segment_match(&chars("latest.*"), &chars("latest.")));
    assert!(!segment_match(&chars("latest.*"), &chars("latest")));
    assert!(segment_match(&chars("a*b*c"), &chars("abbbc")));
    assert!(segment_match(&chars("a*b*c"), &chars("abcbcbc")));
    assert!(!segment_match(&chars("a*b*c"), &chars("abcbcb")));
    assert!(segment_match(&chars("**"), &chars("x")));
    assert!(segment_match(&chars("*é*"), &chars("caféine")));
    assert!(!segment_match(&chars("abc"), &chars("abd")));
    assert!(!segment_match(&chars(""), &chars("a")));
    assert!(segment_match(&chars(""), &chars("")));
    assert!(segment_match(&chars("*a"), &chars("aaa")));
    assert!(!segment_match(&chars("*a"), &chars("aab")));
}

#[test]
fn double_star_matches_any_number_of_segments() {
    assert!(glob_match("/**", "/"));
    assert!(glob_match("/**", "/a/b/c"));
    assert!(glob_match("/api/**", "/api"));
    assert!(glob_match("/api/**/x", "/api/x"));
    assert!(glob_match("/api/**/x", "/api/a/b/x"));
    assert!(!glob_match("/api/**/x", "/api/a/b/y"));
    assert!(!glob_match("/api/**", "/other/api"));
    assert!(glob_match("/**/latest.*", "/front/door/latest.png"));
}

#[test]
fn slashes_do_not_count() {
    assert!(glob_match("/api/events", "api/events/"));
    assert!(glob_match("api//events", "/api/events"));
    assert!(glob_match("/", ""));
    assert!(!glob_match("/api", "/"));
}

#[test]
fn single_star_stays_in_its_segment() {
    assert!(glob_match("/api/*", "/api/x"));
    assert!(!glob_match("/api/*", "/api"));
    assert!(!glob_match("/api/*", "/api/x/y"));
    assert!(glob_match("/*/*", "/a/b"));
}

#[test]
fn literal_patterns_match_only_themselves() {
    assert!(glob_match("/api/events", "/api/events"));
    assert!(!glob_match("/api/events", "/api/event"));
    assert!(!glob_match("/api/events", "/api/events/1"));
    assert!(!glob_match("/API/events", "/api/events")); // paths are case-sensitive
}

#[test]
fn runs_of_stars_act_as_one() {
    for text in ["", "a", "ab", "abc", "ba", "aXa"] {
        assert_eq!(
            segment_match(&chars("a**"), &chars(text)),
            segment_match(&chars("a*"), &chars(text)),
            "{text}"
        );
        assert_eq!(
            segment_match(&chars("***a"), &chars(text)),
            segment_match(&chars("*a"), &chars(text)),
            "{text}"
        );
    }
    assert!(segment_match(&chars("a**"), &chars("abc")));
    assert!(!segment_match(&chars("a**"), &chars("ba")));
}

#[test]
fn counted_match_agrees() {
    assert!(segment_match_counted(&chars("a*b*c"), &chars("abcbcbc")).0);
    assert!(!segment_match_counted(&chars("a*b*c"), &chars("abcbcb")).0);
}
