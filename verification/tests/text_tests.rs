use stock_stalker::text::{
    contains_str, find_char, rfind_char, split_str, starts_with_str, str_equal, trim_start_str,
    trim_str,
};

#[test]
fn text_operations_agree_with_std() {
    for s in ["", "  a b  ", "\t\u{3000}x\u{85}", "a,b,,c,", ",", "::1:80", "héllo wörld"] {
        assert_eq!(trim_str(s), s.trim());
        assert_eq!(trim_start_str(s), s.trim_start());
        let split: Vec<&str> = s.split(',').collect();
        assert_eq!(split_str(s, ','), split);
        assert_eq!(contains_str(s, "b"), s.contains("b"));
        assert_eq!(starts_with_str(s, "a"), s.starts_with("a"));
        assert_eq!(find_char(s, ':').is_some(), s.find(':').is_some());
        assert_eq!(str_equal(s, s), true);
    }
    assert_eq!(find_char("a:b:c", ':'), Some(1));
    assert_eq!(rfind_char("a:b:c", ':'), Some(3));
    assert_eq!(rfind_char("abc", ':'), None);
    assert!(!str_equal("ab", "abc"));
}
