use cli_tools::echor::render;

fn words(text: &[&str]) -> Vec<String> {
    text.iter().map(|w| w.to_string()).collect()
}

#[test]
fn runs() {
    assert_eq!(render(&words(&["hello"]), false), "hello\n");
}

#[test]
fn hello1() {
    assert_eq!(render(&words(&["Hello world"]), false), "Hello world\n");
}

#[test]
fn hello2() {
    assert_eq!(render(&words(&["Hello", "world"]), false), "Hello world\n");
}

#[test]
fn hello1n() {
    assert_eq!(render(&words(&["Hello world"]), true), "Hello world");
}

#[test]
fn hello2n() {
    assert_eq!(render(&words(&["Hello", "world"]), true), "Hello world");
}

#[test]
fn words_are_joined_as_the_standard_library_joins_them() {
    for text in [
        &[][..],
        &[""][..],
        &["", ""][..],
        &["a", "", "b"][..],
        &["", "a"][..],
        &["a", ""][..],
        &[" "][..],
        &["one", "two", "three", "four"][..],
        &["gr\u{fc}\u{df}e", "\u{4e16}\u{754c}"][..],
    ] {
        let owned = words(text);
        assert_eq!(render(&owned, true), owned.join(" "));
        assert_eq!(render(&owned, false), owned.join(" ") + "\n");
    }
}
