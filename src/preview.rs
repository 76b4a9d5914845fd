use vstd::prelude::*;

verus! {

/// The marker that ends a preview whose text was cut.
pub const ELLIPSIS: char = '…';

/// The text that `String::from_utf8_lossy` decodes from `bytes`.
pub uninterp spec fn lossy_text(bytes: Seq<u8>) -> Seq<char>;

/// `text` cut to at most `width` characters: unchanged where it fits,
/// otherwise its first `width - 1` characters followed by the ellipsis
/// (nothing at all for a width of zero).
pub open spec fn preview_of(text: Seq<char>, width: nat) -> Seq<char> {
    if text.len() <= width {
        text
    } else if width == 0 {
        Seq::empty()
    } else {
        text.take(width - 1).push(ELLIPSIS)
    }
}

/// Relies on `String::from_utf8_lossy`: the text decoded from `bytes`, with
/// each invalid sequence replaced by U+FFFD; it depends on the bytes alone.
#[verifier::external_body]
fn decode_lossy(bytes: &[u8]) -> (r: Vec<char>)
    ensures
        r@ == lossy_text(bytes@),
        bytes@.len() == 0 ==> r@.len() == 0,
{
    String::from_utf8_lossy(bytes).chars().collect()
}

/// Relies on `String`'s `FromIterator<&char>`: the characters in order.
#[verifier::external_body]
fn string_of_chars(chars: &Vec<char>) -> (r: String)
    ensures
        r@ == chars@,
{
    chars.iter().collect()
}

/// Cuts `text` to at most `width` characters, ending a cut text with the
/// ellipsis.
pub fn truncate_preview(text: &Vec<char>, width: usize) -> (r: String)
    ensures
        r@ == preview_of(text@, width as nat),
        r@.len() <= width,
        text@.len() <= width ==> r@ == text@,
{
    if text.len() <= width {
        return string_of_chars(text);
    }
    let mut cut: Vec<char> = Vec::new();
    if width > 0 {
        let keep: usize = width - 1;
        let mut i: usize = 0;
        while i < keep
            invariant
                keep < text@.len(),
                i <= keep,
                cut@ == text@.take(i as int),
            decreases keep - i,
        {
            cut.push(text[i]);
            i = i + 1;
            assert(cut@ =~= text@.take(i as int));
        }
        cut.push(ELLIPSIS);
    }
    assert(cut@ =~= preview_of(text@, width as nat));
    string_of_chars(&cut)
}

/// The preview shown for stored `content`: its text, decoded leniently,
/// cut to `width` characters.
pub fn preview(content: &[u8], width: usize) -> (r: String)
    ensures
        r@ == preview_of(lossy_text(content@), width as nat),
        r@.len() <= width,
{
    let text = decode_lossy(content);
    truncate_preview(&text, width)
}

} // verus!
