use maelstrom::echo::{echo, Echo};

#[test]
fn echo_returns_the_payload() {
    assert_eq!(echo(Echo { echo: "hello".to_string() }).echo, "hello");
    assert_eq!(Echo { echo: String::new() }.ok().echo, "");
}
