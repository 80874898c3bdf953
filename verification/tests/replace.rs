use disasm_core::replace::{simplify_type, SimplifiedStr, Type};

#[test]
fn simplify() {
    let sample = "std::io::Result<alloc::string::String> as core::ops::try_trait::Try";

    assert_eq!("io::Result<String> as Try", simplify_type(sample).as_str());
}

#[test]
fn slice_type() {
    let mut sample = Type::new("core::option::Option");

    assert_eq!(sample.next(), Some(("core::option::Option", "")));
    assert_eq!(sample.next(), Some(("core::option", "::Option")));
    assert_eq!(sample.next(), Some(("core", "::option::Option")));
    assert_eq!(sample.next(), None);
}

#[test]
fn simplify_whole_input_is_one_path() {
    let r = simplify_type("core::option::Option");
    assert!(!r.is_borrowed());
    assert_eq!("Option", r.as_str());
}

#[test]
fn simplify_no_anchor_is_borrowed() {
    let r = simplify_type("no paths here");
    assert!(r.is_borrowed());
    assert_eq!("no paths here", r.as_str());
    assert!(matches!(r, SimplifiedStr::Borrowed(_)));
}

#[test]
fn simplify_unknown_path_is_borrowed() {
    let r = simplify_type("core::nonexistent::Thing");
    assert!(r.is_borrowed());
    assert_eq!("core::nonexistent::Thing", r.as_str());
}

#[test]
fn simplify_owned_when_rewritten() {
    let r = simplify_type("std::io::Result<alloc::string::String> as core::ops::try_trait::Try");
    assert!(!r.is_borrowed());
    assert!(matches!(r, SimplifiedStr::Owned(_)));
}

#[test]
fn simplify_empty_input() {
    let r = simplify_type("");
    assert!(r.is_borrowed());
    assert_eq!("", r.as_str());
}

#[test]
fn simplify_bare_anchor_is_borrowed() {
    let r = simplify_type(" :: ");
    assert!(r.is_borrowed());
    assert_eq!(" :: ", r.as_str());
}

#[test]
fn simplify_misspelled_table_key() {
    assert_eq!("PartiaOrd", simplify_type("core::cmp::PartiaOrd").as_str());
    assert!(simplify_type("core::cmp::PartialOrd").is_borrowed());
}

#[test]
fn simplify_two_matching_prefixes_emit_both() {
    // Both `core::ptr::non_null::NonNull` and its prefix `core::ptr` are in
    // the table, so the candidate emits two consecutive fragments.
    let r = simplify_type("core::ptr::non_null::NonNull");
    assert!(!r.is_borrowed());
    assert_eq!("ptr::NonNullptr::non_null::NonNull", r.as_str());
}

#[test]
fn simplify_mid_sentence_paths() {
    let r = simplify_type("call alloc::vec::Vec then std::io done");
    assert_eq!("call Vec then io done", r.as_str());
}

#[test]
fn simplify_tail_after_last_rewrite_is_kept() {
    let r = simplify_type("alloc::boxed::Box<u8> and more");
    assert_eq!("Box<u8> and more", r.as_str());
}

#[test]
fn type_renders_as_its_path() {
    let t = Type::new("core::ptr");
    assert_eq!(t.as_str(), "core::ptr");
}

#[test]
fn type_iter_empty_path() {
    let mut t = Type::new("");
    assert_eq!(t.next(), None);
    assert_eq!(t.next(), None);
}

#[test]
fn type_iter_single_segment() {
    let mut t = Type::new("core");
    assert_eq!(t.next(), Some(("core", "")));
    assert_eq!(t.next(), None);
}

#[test]
fn type_iter_pair_concatenation() {
    // Every produced pair concatenates back to the path, and every suffix
    // is empty or begins with `::`.
    let p = "std::sync::mutex::Mutex";
    let mut t = Type::new(p);
    let mut count = 0;
    while let Some((l, r)) = t.next() {
        assert_eq!(format!("{l}{r}"), p);
        assert!(r.is_empty() || r.starts_with("::"));
        if count == 0 {
            assert_eq!((l, r), (p, ""));
        }
        count += 1;
    }
    assert_eq!(count, 4);
}
