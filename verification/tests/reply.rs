use kate_bot::reply::{answer_body, definition_body, insult_line};

#[test]
fn answers_link_to_their_definition() {
    assert_eq!(
        answer_body("cat", "Ann", ":wow:"),
        "[**Definition ・ 意味**](https://jisho.org/search/cat)\nAnn :wow:"
    );
    assert_eq!(
        answer_body("ねこ", "Ann", ":wow:"),
        "[**Definition ・ 意味**](https://jisho.org/search/%E3%81%AD%E3%81%93)\nAnn :wow:"
    );
    assert_eq!(
        answer_body("a b", "B", "!"),
        "[**Definition ・ 意味**](https://jisho.org/search/a%20b)\nB !"
    );
    assert_eq!(definition_body("x", "y", "z"), "[**Definition ・ 意味**](https://jisho.org/search/x)\ny z");
}

#[test]
fn wrong_picks_get_a_jab() {
    assert_eq!(insult_line("nope", 42, "犬"), "nope <@42> (犬)\n\u{200B}");
}
