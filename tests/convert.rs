use opencc::dict::{Dictionary, DictionaryError};
use opencc::profile::{resolve, Profile};
use opencc::segment::apply;
use opencc::table::load;
use opencc::text::{chars_of, string_of};
use opencc::{OpenCC, OpenCCError};

fn chars(s: &str) -> Vec<char> {
    s.chars().collect()
}

fn run(profile: &str, text: &str) -> String {
    OpenCC::new(profile).unwrap().convert(text).unwrap()
}

#[test]
fn test_simple_convert() {
    let cc = OpenCC::new("t2s.json").unwrap();
    assert_eq!("乾坤一掷", &cc.convert("乾坤一擲").unwrap());
    assert_eq!("开放中文转换", &cc.convert("開放中文轉換").unwrap());
}

#[test]
fn test_opencc_last_error() {
    let mut cc = OpenCC::new("t2s.json").unwrap();
    println!("{}", cc.last_error().unwrap());
}

#[test]
fn empty_input_gives_empty_output() {
    assert_eq!(run("t2s.json", ""), "");
}

#[test]
fn latin_text_passes_unchanged() {
    assert_eq!(run("t2s.json", "abc"), "abc");
    for p in ["s2t.json", "s2tw.json", "s2twp.json", "tw2sp.json", "t2hk.json"] {
        assert_eq!(run(p, "Hello, world! 123"), "Hello, world! 123");
    }
}

#[test]
fn unmatched_spans_keep_their_order() {
    assert_eq!(run("t2s.json", "x開y轉z"), "x开y转z");
}

#[test]
fn replacement_may_change_length() {
    let d = load("abc\tZ\nq\tWW\n").unwrap();
    let out = apply(&d, &chars("xabcq"));
    assert_eq!(out, chars("xZWW"));
}

#[test]
fn longest_match_wins() {
    let d = load("a\tY\nab\tX\n").unwrap();
    assert_eq!(apply(&d, &chars("abab")), chars("XX"));
    assert_eq!(apply(&d, &chars("aab")), chars("YX"));
    // 乾坤 beats the single character 乾
    assert_eq!(run("t2s.json", "乾坤"), "乾坤");
    assert_eq!(run("t2s.json", "乾"), "干");
}

#[test]
fn round_trip_on_safe_vocabulary() {
    for w in ["开放中文转换", "头发", "电脑网络", "汉语学会"] {
        let t = run("s2t.json", w);
        assert_ne!(t, w);
        assert_eq!(run("t2s.json", &t), w);
    }
}

#[test]
fn round_trip_not_promised() {
    let s = run("t2s.json", "乾");
    assert_eq!(s, "干");
    assert_eq!(run("s2t.json", &s), "幹");
}

#[test]
fn closed_instance_refuses() {
    let mut cc = OpenCC::new("s2t.json").unwrap();
    assert!(!cc.is_closed());
    assert_eq!(cc.last_error().unwrap(), "");
    cc.close();
    assert!(cc.is_closed());
    assert_eq!(cc.convert("开放"), Err(OpenCCError::ClosedInstance));
    cc.close();
    assert!(cc.is_closed());
    assert_eq!(cc.convert(""), Err(OpenCCError::ClosedInstance));
    assert_eq!(cc.last_error().unwrap(), OpenCCError::ClosedInstance.message());
    assert_eq!(cc.config, "s2t.json");
}

#[test]
fn unknown_profile_is_refused() {
    assert!(matches!(OpenCC::new("x2y.json"), Err(OpenCCError::UnknownProfile)));
    assert!(matches!(OpenCC::new(""), Err(OpenCCError::UnknownProfile)));
    assert_eq!(resolve("t2s"), None);
    assert_eq!(resolve("t2s.json"), Some(Profile::T2s));
    assert_eq!(resolve("tw2sp.json"), Some(Profile::Tw2sp));
}

#[test]
fn regional_profiles() {
    assert_eq!(run("s2t.json", "里"), "裏");
    assert_eq!(run("s2tw.json", "里"), "裡");
    assert_eq!(run("s2hk.json", "为"), "為");
    assert_eq!(run("s2twp.json", "软件网络"), "軟體網路");
    assert_eq!(run("tw2sp.json", "軟體網路"), "软件网络");
    assert_eq!(run("tw2s.json", "裡"), "里");
    assert_eq!(run("hk2s.json", "著"), "着");
    assert_eq!(run("t2tw.json", "爲"), "為");
    assert_eq!(run("t2hk.json", "衆"), "眾");
}

#[test]
fn malformed_tables_name_the_line() {
    assert!(matches!(load("a\tb\nno tab here\n"), Err(DictionaryError::Malformed(2))));
    assert!(matches!(load("\tb\n"), Err(DictionaryError::Malformed(1))));
    assert!(matches!(load("a\t\n"), Err(DictionaryError::Malformed(1))));
    assert!(matches!(load("a\tb\n\nc"), Err(DictionaryError::Malformed(3))));
}

#[test]
fn table_format_details() {
    // blank lines are skipped, the first candidate is used, the first record wins
    let d = load("\n发\t發 髮\n\n发\t髪\nab\tc").unwrap();
    assert_eq!(d.max_phrase_len(), 2);
    assert_eq!(apply(&d, &chars("发ab")), chars("發c"));
    let e = load("").unwrap();
    assert_eq!(e.max_phrase_len(), 0);
    assert_eq!(apply(&e, &chars("发")), chars("发"));
}

#[test]
fn insert_and_lookup() {
    let mut d = Dictionary::new();
    assert_eq!(d.insert(vec![], chars("x")), Err(DictionaryError::EmptySource));
    assert_eq!(d.insert(chars("ab"), chars("X")), Ok(()));
    assert_eq!(d.insert(chars("a"), chars("Y")), Ok(()));
    assert_eq!(d.insert(chars("a"), chars("Z")), Ok(()));
    let text = chars("cab");
    assert_eq!(d.lookup(&text, 0), None);
    assert_eq!(d.lookup(&text, 1), Some((2, &chars("X")[..])));
    assert_eq!(d.lookup(&text, 2), None);
    let t2 = chars("a");
    assert_eq!(d.lookup(&t2, 0), Some((1, &chars("Y")[..])));
    assert_eq!(d.lookup(&t2, 1), None);
}

#[test]
fn text_round_trip() {
    let v = chars_of("開放 abc");
    assert_eq!(v, chars("開放 abc"));
    assert_eq!(string_of(&v), "開放 abc");
    assert_eq!(string_of(&[]), "");
}
