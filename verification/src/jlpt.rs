//! Lines of the JLPT vocabulary lists: `kanji hiragana` or `hiragana`,
//! optionally followed by a note in full-width parentheses.

use vstd::prelude::*;

use crate::dictionary::NLevel;
use crate::text::{char_index, find_char, split_whitespace, views, words};

verus! {

/// One word of a JLPT vocabulary list.
#[derive(Debug)]
pub struct JlptEntry {
    pub hiragana: String,
    pub kanji: Option<String>,
    pub level: NLevel,
}

/// Whether a line holds no word: it is empty, a `#` comment, or it has a
/// `~` in it.
pub open spec fn skipped_line(line: Seq<char>) -> bool {
    line.len() == 0 || line[0] == '#' || line.contains('~')
}

/// The part of a line before its first `（`, or the whole line.
pub open spec fn before_note(line: Seq<char>) -> Seq<char> {
    match char_index(line, '（') {
        Some(i) => line.take(i),
        None => line,
    }
}

/// The whitespace-separated fields of a line's part before its note.
pub open spec fn line_fields(line: Seq<char>) -> Seq<Seq<char>> {
    words(before_note(line))
}

/// Whether a line can be read: it is skipped, or it has one or two fields.
pub open spec fn readable_line(line: Seq<char>) -> bool {
    skipped_line(line) || line_fields(line).len() == 1 || line_fields(line).len() == 2
}

/// The fields of a line that holds a word, or `None` for a skipped line.
pub fn entry_fields(line: &str) -> (fields: Option<Vec<String>>)
    ensures
        skipped_line(line@) <==> fields is None,
        fields matches Some(f) ==> views(f@) == line_fields(line@),
{
    let is_empty = line.is_empty();
    let is_comment = !is_empty && line.get_char(0) == '#';
    let has_tilde = find_char(line, '~').is_some();
    proof {
        if has_tilde {
            assert(line@.contains('~'));
        }
        if line@.contains('~') {
            let k = choose|k: int| 0 <= k < line@.len() && line@[k] == '~';
            assert(crate::text::is_char('~')(line@[k]));
        }
    }
    if is_empty || is_comment || has_tilde {
        return None;
    }
    let fields = match find_char(line, '（') {
        Some(i) => {
            let head = crate::text::substring(line, 0, i);
            proof {
                assert(head@ =~= line@.take(i as int));
            }
            split_whitespace(head.as_str())
        },
        None => split_whitespace(line),
    };
    Some(fields)
}

/// Reads the hiragana and the kanji, if any, of a line of a vocabulary
/// list. A line with one field is hiragana alone; with two, the kanji
/// comes first. Skipped lines give `None`.
pub fn extract_entry(line: &str) -> (entry: Option<(String, Option<String>)>)
    requires
        readable_line(line@),
    ensures
        skipped_line(line@) ==> entry is None,
        !skipped_line(line@) && line_fields(line@).len() == 1 ==> (entry matches Some((h, k)) && h@
            == line_fields(line@)[0] && k is None),
        !skipped_line(line@) && line_fields(line@).len() == 2 ==> (entry matches Some((h, k)) && h@
            == line_fields(line@)[1] && (k matches Some(kj) && kj@ == line_fields(line@)[0])),
{
    let mut fields = match entry_fields(line) {
        Some(f) => f,
        None => return None,
    };
    if fields.len() == 1 {
        let hiragana = fields.pop().unwrap();
        Some((hiragana, None))
    } else {
        let hiragana = fields.pop().unwrap();
        let kanji = fields.pop().unwrap();
        Some((hiragana, Some(kanji)))
    }
}

} // verus!
