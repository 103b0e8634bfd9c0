use clojure_rs::triml::{ArgError, TrimLFn};
use clojure_rs::type_tag::TypeTag;

#[test]
fn triml() {
    let triml = TrimLFn {};
    let s = " \r \t  hello   \n";
    let args = vec![String::from(s)];
    assert_eq!(Ok(String::from("hello   \n")), triml.invoke(&args));
}

#[test]
fn triml_wrong_arg_count() {
    let triml = TrimLFn {};
    assert_eq!(
        Err(ArgError::WrongArgCount { expected: 1, got: 0 }),
        triml.invoke(&vec![])
    );
    let two = vec![String::from("a"), String::from("b")];
    assert_eq!(
        Err(ArgError::WrongArgCount { expected: 1, got: 2 }),
        triml.invoke(&two)
    );
}

#[test]
fn triml_edge_cases() {
    assert_eq!(clojure_rs::triml::triml(""), "");
    assert_eq!(clojure_rs::triml::triml(" \t\n"), "");
    assert_eq!(clojure_rs::triml::triml("x  "), "x  ");
    assert_eq!(clojure_rs::triml::triml("\u{3000}\u{a0}é b"), "é b");
}

#[test]
fn type_tag_names() {
    assert_eq!(TypeTag::I32.to_string(), "rust.std.i32");
    assert_eq!(TypeTag::F64.to_string(), "rust.std.f64");
    assert_eq!(TypeTag::String.to_string(), "rust.std.string.String");
    assert_eq!(TypeTag::PersistentListMap.to_string(), "clojure.lang.PersistentListMap");
    assert_eq!(TypeTag::Nil.to_string(), "clojure.lang.Nil");
}

#[test]
fn white_space_agrees_with_std() {
    for u in 0..=0x10FFFFu32 {
        if let Some(c) = char::from_u32(u) {
            assert_eq!(clojure_rs::triml::white_space(c), c.is_whitespace(), "U+{:04X}", u);
        }
    }
    assert_eq!(clojure_rs::triml::triml("\u{85}\u{2029}x"), "x");
    assert_eq!(clojure_rs::triml::triml("\u{200b}x"), "\u{200b}x");
}
