use streamsql::string::{writelog_message, SqlString, array_to_string2Nvec__, array_to_string2_vec__, array_to_string3Nvec___, array_to_string3_vec___, ascii_, char_length_, char_length_ref, chr_, concat_s_s, initcap_, left__, like2__, like3___, lower_, overlay3___, overlay4____, position__, repeat__, replace___, rlike__, same_text, split1_, split2__, substring2__, substring3___, trim_both_s_s, trim_leading_s_s, trim_trailing_s_s, upper_};

fn s(t: &str) -> SqlString {
    SqlString::from_ref(t)
}

#[test]
fn construct_and_read_back() {
    assert_eq!(SqlString::new().str(), "");
    assert_eq!(s("abc").str(), "abc");
    assert_eq!(SqlString::from(String::from("xy")).str(), "xy");
    assert_eq!(SqlString::from_string(String::from("é")).char_count(), 1);
}

#[test]
fn concat_joins() {
    assert_eq!(concat_s_s(s("ab"), s("cd")).str(), "abcd");
}

#[test]
fn substring_with_count() {
    assert_eq!(substring3___(s("hello"), 2, 3).str(), "ell");
    assert_eq!(substring3___(s("hello"), 0, 2).str(), "he");
    assert_eq!(substring3___(s("hello"), 4, 10).str(), "lo");
    assert_eq!(substring3___(s("hello"), 2, -1).str(), "");
    assert_eq!(substring3___(s("hello"), 9, 2).str(), "");
    assert_eq!(left__(s("hello"), 3).str(), "hel");
}

#[test]
fn substring_counts_characters() {
    assert_eq!(substring2__(s("héllo"), 2).str(), "éllo");
}

#[test]
fn trims_one_character_kind() {
    assert_eq!(trim_both_s_s(s("x"), s("xxabxx")).str(), "ab");
    assert_eq!(trim_leading_s_s(s("x"), s("xxabxx")).str(), "abxx");
    assert_eq!(trim_trailing_s_s(s("xy"), s("xxabxx")).str(), "xxab");
}

#[test]
fn like_and_rlike() {
    assert!(like2__(s("hello"), s("h%o")));
    assert!(like2__(s("hello"), s("h_llo")));
    assert!(!like2__(s("hello"), s("h_o")));
    assert!(rlike__(s("abc123"), s("[0-9]+")));
    assert!(!rlike__(s("abc"), s("[0-9]+")));
    assert!(!rlike__(s("abc"), s("(")));
    assert!(like3___(s("a%c"), s("a!%c"), s("!")));
    assert!(!like3___(s("abc"), s("a!%c"), s("!")));
}

#[test]
fn position_is_one_based() {
    assert_eq!(position__(s("lo"), s("hello")), 4);
    assert_eq!(position__(s("z"), s("hello")), 0);
    assert_eq!(position__(s(""), s("hello")), 1);
}

#[test]
fn lengths_and_codes() {
    assert_eq!(char_length_(s("héllo")), 5);
    assert_eq!(char_length_ref("ab"), 2);
    assert_eq!(ascii_(s("A")), 65);
    assert_eq!(ascii_(s("")), 0);
    assert_eq!(chr_(97).str(), "a");
    assert_eq!(chr_(-1).str(), "");
    assert_eq!(chr_(0xD800).str(), "");
}

#[test]
fn repeat_copies() {
    assert_eq!(repeat__(s("ab"), 3).str(), "ababab");
    assert_eq!(repeat__(s("ab"), 0).str(), "");
    assert_eq!(repeat__(s("ab"), -2).str(), "");
}

#[test]
fn overlay_cases() {
    assert_eq!(overlay4____(s("abcdef"), s("XY"), 2, 3).str(), "aXYef");
    assert_eq!(overlay4____(s("abc"), s("XY"), 0, 1).str(), "abc");
    assert_eq!(overlay4____(s("abc"), s("XY"), 9, 1).str(), "abcXY");
    assert_eq!(overlay4____(s("abc"), s("XY"), 2, -5).str(), "aXYbc");
    assert_eq!(overlay3___(s("abcdef"), s("XY"), 3).str(), "abXYef");
}

#[test]
fn case_folding() {
    assert_eq!(lower_(s("HeLLo")).str(), "hello");
    assert_eq!(upper_(s("HeLLo")).str(), "HELLO");
    assert_eq!(initcap_(s("hello WORLD-foo1 bar")).str(), "Hello World-Foo1 Bar");
}

#[test]
fn replace_all_occurrences() {
    assert_eq!(replace___(s("aXbXc"), s("X"), s("--")).str(), "a--b--c");
    assert_eq!(replace___(s("aaa"), s("aa"), s("b")).str(), "ba");
    assert_eq!(replace___(s("ab"), s(""), s("-")).str(), "-a-b-");
}

#[test]
fn split_cases() {
    let texts = |v: Vec<SqlString>| v.iter().map(|x| x.str()).collect::<Vec<_>>();
    assert_eq!(texts(split2__(s("a,b,,c"), s(","))), vec!["a", "b", "", "c"]);
    assert_eq!(texts(split2__(s("a::b"), s("::"))), vec!["a", "b"]);
    assert_eq!(texts(split2__(s("abc"), s(""))), vec!["abc"]);
    assert_eq!(texts(split2__(s(""), s(","))), Vec::<String>::new());
    assert_eq!(texts(split1_(s("x,y"))), vec!["x", "y"]);
}

#[test]
fn array_to_string_variants() {
    assert_eq!(array_to_string2_vec__(vec![s("a"), s("b")], s("-")).str(), "a-b");
    assert_eq!(array_to_string2_vec__(vec![], s("-")).str(), "");
    assert_eq!(array_to_string2Nvec__(vec![None, Some(s("a")), None, Some(s("b"))], s(",")).str(), "a,b");
    assert_eq!(array_to_string3_vec___(vec![s("a")], s(","), s("N")).str(), "a");
    assert_eq!(array_to_string3Nvec___(vec![Some(s("a")), None], s(","), s("N")).str(), "a,N");
}

#[test]
fn text_equality() {
    assert!(same_text("ab", "ab"));
    assert!(!same_text("ab", "abc"));
}

#[test]
fn writelog_substitutes_value() {
    assert_eq!(writelog_message(s("x=%% y=%%;"), s("5")).str(), "x=5 y=5;");
    assert_eq!(writelog_message(s("no token"), s("5")).str(), "no token");
}

#[test]
fn like_with_bad_escapes_is_false() {
    assert!(!like3___(s("ac"), s("a!c"), s("!")));
    assert!(!like3___(s("a"), s("a!"), s("!")));
    assert!(!like3___(s("a"), s("a"), s("!!")));
    assert!(like3___(s("a!"), s("a!!"), s("!")));
    assert!(like3___(s("a\\b"), s("a\\b"), s("")));
}
