//! The texts that a game shows after a pick: a link to the answer's
//! definition and a jab at a wrong pick.

use vstd::prelude::*;

use crate::interaction::{decimal, write_decimal};

verus! {

/// Whether `c` is left as it is in a URL: an ASCII letter or digit, or one
/// of `-`, `_`, `.`, `~`.
pub open spec fn unreserved(c: char) -> bool {
    ||| ('a' <= c && c <= 'z')
    ||| ('A' <= c && c <= 'Z')
    ||| ('0' <= c && c <= '9')
    ||| c == '-' || c == '_' || c == '.' || c == '~'
}

/// The hexadecimal digit of `d`, upper case for the letters.
pub open spec fn hex_digit(d: nat) -> char {
    if d < 10 {
        ((('0' as nat) + d) as u32) as char
    } else {
        ((('A' as nat) + d - 10) as u32) as char
    }
}

/// A byte written as `%` and its two hexadecimal digits.
pub open spec fn percent_byte(b: nat) -> Seq<char> {
    seq!['%', hex_digit(b / 16), hex_digit(b % 16)]
}

/// The bytes of `c` in UTF-8.
pub open spec fn utf8_bytes(c: char) -> Seq<nat> {
    let n = c as nat;
    if n < 0x80 {
        seq![n]
    } else if n < 0x800 {
        seq![0xC0 + n / 64, 0x80 + n % 64]
    } else if n < 0x10000 {
        seq![0xE0 + n / 4096, 0x80 + (n / 64) % 64, 0x80 + n % 64]
    } else {
        seq![0xF0 + n / 262144, 0x80 + (n / 4096) % 64, 0x80 + (n / 64) % 64, 0x80 + n % 64]
    }
}

/// `c` in a URL: as it is when unreserved, else each of its UTF-8 bytes
/// percent-encoded.
pub open spec fn url_encoded_char(c: char) -> Seq<char> {
    if unreserved(c) {
        seq![c]
    } else {
        utf8_bytes(c).map_values(|b: nat| percent_byte(b)).flatten()
    }
}

/// `text` percent-encoded for a URL, one character after the other.
pub open spec fn url_encoded(text: Seq<char>) -> Seq<char>
    decreases text.len(),
{
    if text.len() == 0 {
        Seq::empty()
    } else {
        url_encoded(text.drop_last()) + url_encoded_char(text.last())
    }
}

/// Percent-encodes `text` with `urlencoding`'s [`urlencoding::encode`].
/// The contract claims what the crate documents and its source does: every
/// UTF-8 byte is written as `%` and two upper-case hexadecimal digits,
/// except the bytes of ASCII letters, digits and `-`, `_`, `.`, `~`, which
/// stay as they are.
#[verifier::external_body]
fn url_encode(text: &str) -> (encoded: String)
    ensures
        encoded@ == url_encoded(text@),
{
    urlencoding::encode(text).into_owned()
}

/// A text made of unreserved characters alone is its own encoding.
pub proof fn lemma_unreserved_unchanged(text: Seq<char>)
    requires
        forall|i: int| 0 <= i < text.len() ==> unreserved(#[trigger] text[i]),
    ensures
        url_encoded(text) == text,
    decreases text.len(),
{
    if text.len() > 0 {
        let rest = text.drop_last();
        assert forall|i: int| 0 <= i < rest.len() implies unreserved(#[trigger] rest[i]) by {
            assert(rest[i] == text[i]);
        }
        lemma_unreserved_unchanged(rest);
        assert(unreserved(text[text.len() - 1]));
        assert(rest + seq![text.last()] =~= text);
    }
}

/// The body of the answer of a round, from the answer's encoded form: a
/// link to its definition on jisho.org, then who got it right and `wow`.
pub open spec fn spec_definition_body(encoded: Seq<char>, name: Seq<char>, wow: Seq<char>) -> Seq<char> {
    "[**Definition ・ 意味**](https://jisho.org/search/"@ + encoded + ")\n"@ + name + " "@ + wow
}

/// Writes the body of the answer of a round from the answer's encoded form.
pub fn definition_body(encoded: &str, name: &str, wow: &str) -> (body: String)
    ensures
        body@ == spec_definition_body(encoded@, name@, wow@),
{
    let mut body = String::from_str("[**Definition ・ 意味**](https://jisho.org/search/");
    body.append(encoded);
    body.append(")\n");
    body.append(name);
    body.append(" ");
    body.append(wow);
    body
}

/// Writes the body of the answer of a round: a link to the definition of
/// `answer`, then who got it right and `wow`.
pub fn answer_body(answer: &str, name: &str, wow: &str) -> (body: String)
    ensures
        body@ == spec_definition_body(url_encoded(answer@), name@, wow@),
{
    let encoded = url_encode(answer);
    definition_body(encoded.as_str(), name, wow)
}

/// The line of a jab at a wrong pick: the insult, a mention of the user
/// and the picked choice, then an invisible line break.
pub open spec fn spec_insult_line(insult: Seq<char>, user_id: u64, choice: Seq<char>) -> Seq<char> {
    insult + " <@"@ + decimal(user_id as nat) + "> ("@ + choice + ")\n\u{200B}"@
}

/// Writes the line of a jab at a wrong pick.
pub fn insult_line(insult: &str, user_id: u64, choice: &str) -> (line: String)
    ensures
        line@ == spec_insult_line(insult@, user_id, choice@),
{
    let mut line = String::from_str(insult);
    line.append(" <@");
    line.append(write_decimal(user_id).as_str());
    line.append("> (");
    line.append(choice);
    line.append(")\n\u{200B}");
    line
}

} // verus!
