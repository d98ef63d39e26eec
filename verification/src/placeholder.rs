//! Placeholders: tokens that stand in a page's body for a field of a
//! reference until every page has been evaluated.
//!
//! A token is the evaluator's marker, a letter for the field, the
//! reference's id with each character written as six hexadecimal digits,
//! and a closing `z`. It is made of letters and digits alone, so that
//! Markdown rendering leaves it as it is.

use crate::error::{text_result, EvalError};
use crate::page::{RefDef, RefDefModel};
use crate::strmap::StrMap;
use crate::text::{chars_of, starts_at, starts_with_at};
use vstd::prelude::*;

verus! {

/// `char::from_u32` gives the character with the given code, where there is
/// one.
pub assume_specification[ char::from_u32 ](code: u32) -> (r: Option<char>)
    ensures
        r == (if is_char(code as nat) {
            Some(code as char)
        } else {
            None::<char>
        }),
;

/// The field of a reference that a placeholder stands for.
#[derive(Clone, Copy, Debug, PartialEq, Eq, Structural)]
pub enum PlaceholderAction {
    Title,
    Path,
}

/// The letter that names a field in a token.
pub open spec fn action_char(action: PlaceholderAction) -> char {
    match action {
        PlaceholderAction::Title => 't',
        PlaceholderAction::Path => 'p',
    }
}

/// The field that a letter names.
pub open spec fn action_of(c: char) -> Option<PlaceholderAction> {
    if c == 't' {
        Some(PlaceholderAction::Title)
    } else if c == 'p' {
        Some(PlaceholderAction::Path)
    } else {
        None
    }
}

/// The hexadecimal digit of `n`, for `n` below sixteen.
pub open spec fn hex_digit(n: nat) -> char {
    if n == 0 {
        '0'
    } else if n == 1 {
        '1'
    } else if n == 2 {
        '2'
    } else if n == 3 {
        '3'
    } else if n == 4 {
        '4'
    } else if n == 5 {
        '5'
    } else if n == 6 {
        '6'
    } else if n == 7 {
        '7'
    } else if n == 8 {
        '8'
    } else if n == 9 {
        '9'
    } else if n == 10 {
        'a'
    } else if n == 11 {
        'b'
    } else if n == 12 {
        'c'
    } else if n == 13 {
        'd'
    } else if n == 14 {
        'e'
    } else {
        'f'
    }
}

/// The value of a hexadecimal digit.
pub open spec fn hex_value(c: char) -> Option<nat> {
    if c == '0' {
        Some(0)
    } else if c == '1' {
        Some(1)
    } else if c == '2' {
        Some(2)
    } else if c == '3' {
        Some(3)
    } else if c == '4' {
        Some(4)
    } else if c == '5' {
        Some(5)
    } else if c == '6' {
        Some(6)
    } else if c == '7' {
        Some(7)
    } else if c == '8' {
        Some(8)
    } else if c == '9' {
        Some(9)
    } else if c == 'a' {
        Some(10)
    } else if c == 'b' {
        Some(11)
    } else if c == 'c' {
        Some(12)
    } else if c == 'd' {
        Some(13)
    } else if c == 'e' {
        Some(14)
    } else if c == 'f' {
        Some(15)
    } else {
        None
    }
}

/// Whether `n` is the code of a character.
pub open spec fn is_char(n: nat) -> bool {
    n <= 0xD7FF || 0xE000 <= n <= 0x10FFFF
}

/// `n` in six hexadecimal digits, for `n` below `0x1000000`.
#[verifier::opaque]
pub open spec fn hex6(n: nat) -> Seq<char> {
    seq![
        hex_digit(n / 16 / 16 / 16 / 16 / 16 % 16),
        hex_digit(n / 16 / 16 / 16 / 16 % 16),
        hex_digit(n / 16 / 16 / 16 % 16),
        hex_digit(n / 16 / 16 % 16),
        hex_digit(n / 16 % 16),
        hex_digit(n % 16),
    ]
}

/// The number that the first six characters of `s` write in hexadecimal.
#[verifier::opaque]
pub open spec fn value6(s: Seq<char>) -> Option<nat> {
    if s.len() >= 6 && hex_value(s[0]) is Some && hex_value(s[1]) is Some && hex_value(s[2])
        is Some && hex_value(s[3]) is Some && hex_value(s[4]) is Some && hex_value(s[5])
        is Some {
        Some(
            ((((hex_value(s[0])->0 * 16 + hex_value(s[1])->0) * 16 + hex_value(s[2])->0) * 16
                + hex_value(s[3])->0) * 16 + hex_value(s[4])->0) * 16 + hex_value(s[5])->0,
        )
    } else {
        None
    }
}

/// An id with each character written as six hexadecimal digits.
pub open spec fn encode(id: Seq<char>) -> Seq<char>
    decreases id.len(),
{
    if id.len() == 0 {
        Seq::empty()
    } else {
        hex6(id[0] as u32 as nat) + encode(id.drop_first())
    }
}

/// The token that stands for the field `action` of the reference `id`.
pub open spec fn token(marker: Seq<char>, action: PlaceholderAction, id: Seq<char>) -> Seq<char> {
    marker.push(action_char(action)) + encode(id).push('z')
}

/// The id written at the start of `s`, up to a closing `z`, and the number
/// of characters that write it, the `z` included.
pub open spec fn decode(s: Seq<char>) -> Option<(Seq<char>, nat)>
    decreases s.len(),
{
    if s.len() == 0 {
        None
    } else if s[0] == 'z' {
        Some((Seq::empty(), 1nat))
    } else if s.len() < 6 {
        None
    } else {
        match value6(s) {
            Some(code) => if is_char(code) {
                match decode(s.skip(6)) {
                    Some((rest, used)) => Some((seq![code as u32 as char] + rest, used + 6)),
                    None => None,
                }
            } else {
                None
            },
            None => None,
        }
    }
}

/// A token found in a text: its field, its id and its length.
pub ghost struct Found {
    pub action: PlaceholderAction,
    pub id: Seq<char>,
    pub len: nat,
}

/// The token that stands at the start of `s`, if one does.
pub open spec fn token_at(marker: Seq<char>, s: Seq<char>) -> Option<Found> {
    if starts_at(s, marker, 0) && s.len() > marker.len() && action_of(s[marker.len() as int])
        is Some {
        match decode(s.skip(marker.len() as int + 1)) {
            Some((id, used)) => Some(
                Found {
                    action: action_of(s[marker.len() as int])->0,
                    id,
                    len: marker.len() + 1 + used,
                },
            ),
            None => None,
        }
    } else {
        None
    }
}

/// The code of a character is the code of that character.
pub proof fn lemma_char_code(c: char)
    ensures
        is_char(c as u32 as nat),
        c as u32 as nat as u32 as char == c,
{
}

/// A digit has the value it was made from, and is no `z`.
pub proof fn lemma_hex_digit(d: nat)
    requires
        d < 16,
    ensures
        hex_value(hex_digit(d)) == Some(d),
        hex_digit(d) != 'z',
{
}

/// Six digits write the number they were made from.
pub proof fn lemma_value6_hex6(n: nat, rest: Seq<char>)
    requires
        n < 0x1000000,
    ensures
        hex6(n).len() == 6,
        value6(hex6(n) + rest) == Some(n),
        (hex6(n) + rest)[0] != 'z',
        (hex6(n) + rest).skip(6) == rest,
{
    reveal(hex6);
    reveal(value6);
    let s = hex6(n) + rest;
    let q1 = n / 16;
    let q2 = q1 / 16;
    let q3 = q2 / 16;
    let q4 = q3 / 16;
    let q5 = q4 / 16;
    assert(q5 < 16);
    assert(s[0] == hex_digit(q5 % 16));
    assert(s[1] == hex_digit(q4 % 16));
    assert(s[2] == hex_digit(q3 % 16));
    assert(s[3] == hex_digit(q2 % 16));
    assert(s[4] == hex_digit(q1 % 16));
    assert(s[5] == hex_digit(n % 16));
    lemma_hex_digit(q5 % 16);
    lemma_hex_digit(q4 % 16);
    lemma_hex_digit(q3 % 16);
    lemma_hex_digit(q2 % 16);
    lemma_hex_digit(q1 % 16);
    lemma_hex_digit(n % 16);
    assert(s.skip(6) =~= rest);
}

/// What was encoded is decoded again, whatever follows the closing `z`.
pub proof fn lemma_decode_encode(id: Seq<char>, rest: Seq<char>)
    ensures
        decode(encode(id).push('z') + rest) == Some((id, 6 * id.len() + 1)),
    decreases id.len(),
{
    let s = encode(id).push('z') + rest;
    if id.len() == 0 {
        assert(s[0] == 'z');
    } else {
        let tail = encode(id.drop_first()).push('z') + rest;
        let code = id[0] as u32 as nat;
        lemma_char_code(id[0]);
        assert(s =~= hex6(code) + tail);
        lemma_value6_hex6(code, tail);
        lemma_decode_encode(id.drop_first(), rest);
        assert(seq![id[0]] + id.drop_first() =~= id);
    }
}

/// A token is found again where it stands, whatever follows it.
pub proof fn lemma_token_found(
    marker: Seq<char>,
    action: PlaceholderAction,
    id: Seq<char>,
    rest: Seq<char>,
)
    ensures
        token_at(marker, token(marker, action, id) + rest) == Some(
            Found { action, id, len: token(marker, action, id).len() },
        ),
{
    let t = token(marker, action, id);
    let s = t + rest;
    assert(s.subrange(0, marker.len() as int) =~= marker);
    assert(s[marker.len() as int] == action_char(action));
    assert(s.skip(marker.len() as int + 1) =~= encode(id).push('z') + rest);
    lemma_decode_encode(id, rest);
    lemma_encode_len(id);
}

/// Each character of an id takes six digits.
pub proof fn lemma_encode_len(id: Seq<char>)
    ensures
        encode(id).len() == 6 * id.len(),
    decreases id.len(),
{
    if id.len() > 0 {
        lemma_encode_len(id.drop_first());
        lemma_char_code(id[0]);
        lemma_value6_hex6(id[0] as u32 as nat, Seq::empty());
    }
}

/// The field `action` of a definition.
pub open spec fn field_of(def: RefDefModel, action: PlaceholderAction) -> Seq<char> {
    match action {
        PlaceholderAction::Title => def.title,
        PlaceholderAction::Path => def.slug,
    }
}

/// `text` put before what `rest` holds, where it holds a text.
pub open spec fn prepend(text: Seq<char>, rest: Result<Seq<char>, EvalError>) -> Result<
    Seq<char>,
    EvalError,
> {
    match rest {
        Ok(tail) => Ok(text + tail),
        Err(e) => Err(e),
    }
}

/// `body` with every token replaced, from left to right, by the field it
/// stands for. Fails where a token names a reference that `refs` does not
/// hold.
pub open spec fn substituted(
    marker: Seq<char>,
    refs: Map<Seq<char>, RefDefModel>,
    body: Seq<char>,
) -> Result<Seq<char>, EvalError>
    decreases body.len(),
{
    if body.len() == 0 {
        Ok(Seq::empty())
    } else {
        match token_at(marker, body) {
            Some(found) => if !refs.contains_key(found.id) {
                Err(EvalError::UndefinedReference)
            } else if found.len <= body.len() {
                prepend(
                    field_of(refs[found.id], found.action),
                    substituted(marker, refs, body.skip(found.len as int)),
                )
            } else {
                Err(EvalError::UndefinedReference)
            },
            None => prepend(seq![body[0]], substituted(marker, refs, body.skip(1))),
        }
    }
}

/// The hexadecimal digit of `n`.
fn hex_char(n: u32) -> (c: char)
    requires
        n < 16,
    ensures
        c == hex_digit(n as nat),
{
    if n == 0 {
        '0'
    } else if n == 1 {
        '1'
    } else if n == 2 {
        '2'
    } else if n == 3 {
        '3'
    } else if n == 4 {
        '4'
    } else if n == 5 {
        '5'
    } else if n == 6 {
        '6'
    } else if n == 7 {
        '7'
    } else if n == 8 {
        '8'
    } else if n == 9 {
        '9'
    } else if n == 10 {
        'a'
    } else if n == 11 {
        'b'
    } else if n == 12 {
        'c'
    } else if n == 13 {
        'd'
    } else if n == 14 {
        'e'
    } else {
        'f'
    }
}

/// The value of a hexadecimal digit.
fn hex_number(c: char) -> (r: Option<u32>)
    ensures
        match r {
            Some(n) => hex_value(c) == Some(n as nat) && n < 16,
            None => hex_value(c) is None,
        },
{
    if c == '0' {
        Some(0)
    } else if c == '1' {
        Some(1)
    } else if c == '2' {
        Some(2)
    } else if c == '3' {
        Some(3)
    } else if c == '4' {
        Some(4)
    } else if c == '5' {
        Some(5)
    } else if c == '6' {
        Some(6)
    } else if c == '7' {
        Some(7)
    } else if c == '8' {
        Some(8)
    } else if c == '9' {
        Some(9)
    } else if c == 'a' {
        Some(10)
    } else if c == 'b' {
        Some(11)
    } else if c == 'c' {
        Some(12)
    } else if c == 'd' {
        Some(13)
    } else if c == 'e' {
        Some(14)
    } else if c == 'f' {
        Some(15)
    } else {
        None
    }
}

/// Appends the six hexadecimal digits of `code` to `out`.
fn push_hex6(out: &mut String, code: u32)
    ensures
        final(out)@ == old(out)@ + hex6(code as nat),
{
    reveal(hex6);
    let q1 = code / 16;
    let q2 = q1 / 16;
    let q3 = q2 / 16;
    let q4 = q3 / 16;
    let q5 = q4 / 16;
    out.push(hex_char(q5 % 16));
    out.push(hex_char(q4 % 16));
    out.push(hex_char(q3 % 16));
    out.push(hex_char(q2 % 16));
    out.push(hex_char(q1 % 16));
    out.push(hex_char(code % 16));
    assert(out@ =~= old(out)@ + hex6(code as nat));
}

/// The number that the six characters from `at` on write in hexadecimal.
fn read_hex6(s: &[char], at: usize) -> (r: Option<u32>)
    requires
        at + 6 <= s.len(),
    ensures
        match r {
            Some(n) => value6(s@.skip(at as int)) == Some(n as nat),
            None => value6(s@.skip(at as int)) is None,
        },
{
    reveal(value6);
    let ghost rest = s@.skip(at as int);
    assert(rest[0] == s@[at + 0] && rest[1] == s@[at + 1] && rest[2] == s@[at + 2] && rest[3]
        == s@[at + 3] && rest[4] == s@[at + 4] && rest[5] == s@[at + 5]);
    let d0 = hex_number(s[at]);
    let d1 = hex_number(s[at + 1]);
    let d2 = hex_number(s[at + 2]);
    let d3 = hex_number(s[at + 3]);
    let d4 = hex_number(s[at + 4]);
    let d5 = hex_number(s[at + 5]);
    match (d0, d1, d2, d3, d4, d5) {
        (Some(a), Some(b), Some(c), Some(d), Some(e), Some(f)) => Some(
            ((((a * 16 + b) * 16 + c) * 16 + d) * 16 + e) * 16 + f,
        ),
        _ => None,
    }
}

/// The token that stands for the field `action` of the reference `id`.
pub fn make_token(marker: &str, action: PlaceholderAction, id: &str) -> (out: String)
    ensures
        out@ == token(marker@, action, id@),
{
    let mut out = marker.to_owned();
    match action {
        PlaceholderAction::Title => out.push('t'),
        PlaceholderAction::Path => out.push('p'),
    }
    let ghost head = out@;
    let chars = chars_of(id);
    let mut i: usize = 0;
    assert(chars@.skip(0) =~= chars@);
    assert(head + Seq::<char>::empty() =~= head);
    assert(out@ + encode(chars@.skip(0)) == head + encode(chars@));
    while i < chars.len()
        invariant
            i <= chars.len(),
            out@ + encode(chars@.skip(i as int)) == head + encode(chars@),
        decreases chars.len() - i,
    {
        let ghost before = out@;
        let ghost rest = chars@.skip(i as int);
        push_hex6(&mut out, chars[i] as u32);
        proof {
            assert(rest[0] == chars@[i as int]);
            assert(rest.drop_first() =~= chars@.skip(i + 1));
            assert(out@ + encode(chars@.skip(i + 1)) =~= before + encode(rest));
        }
        i = i + 1;
    }
    assert(out@ + Seq::<char>::empty() =~= out@);
    out.push('z');
    assert(out@ =~= token(marker@, action, id@));
    out
}

/// An id read from a text, and the number of characters that wrote it.
pub struct ReadId {
    pub id: String,
    pub used: usize,
}

/// Reads the id written in `s` from `from` on, up to a closing `z`.
fn read_id(s: &[char], from: usize) -> (r: Option<ReadId>)
    requires
        from <= s.len(),
    ensures
        match r {
            Some(read) => decode(s@.skip(from as int)) == Some((read.id@, read.used as nat))
                && from + read.used <= s.len(),
            None => decode(s@.skip(from as int)) is None,
        },
{
    let mut id = String::new();
    let mut at: usize = from;
    let ghost start = s@.skip(from as int);
    assert(Seq::<char>::empty() + Seq::<char>::empty() =~= Seq::<char>::empty());
    loop
        invariant
            from <= at <= s.len(),
            start == s@.skip(from as int),
            decode(start) == match decode(s@.skip(at as int)) {
                Some((rest, used)) => Some((id@ + rest, (used + (at - from)) as nat)),
                None => None,
            },
        decreases s.len() - at,
    {
        let ghost here = s@.skip(at as int);
        if at >= s.len() {
            return None;
        }
        assert(here[0] == s@[at as int]);
        if s[at] == 'z' {
            assert(id@ + Seq::<char>::empty() =~= id@);
            return Some(ReadId { id, used: at - from + 1 });
        }
        if s.len() - at < 6 {
            return None;
        }
        match read_hex6(s, at) {
            None => {
                return None;
            },
            Some(code) => match char::from_u32(code) {
                None => {
                    return None;
                },
                Some(c) => {
                    proof {
                        assert(here.skip(6) =~= s@.skip(at + 6));
                        let ghost before = id@;
                        assert forall|rest: Seq<char>| #![auto] before.push(c) + rest =~= before + (
                        seq![c] + rest) by {}
                    }
                    id.push(c);
                    at = at + 6;
                },
            },
        }
    }
}

/// A token read from a text.
pub struct ReadToken {
    pub action: PlaceholderAction,
    pub id: String,
    pub len: usize,
}

/// The token that stands in `body` at `at`, if one does.
fn read_token(marker: &[char], body: &[char], at: usize) -> (r: Option<ReadToken>)
    requires
        at <= body.len(),
    ensures
        match r {
            Some(read) => token_at(marker@, body@.skip(at as int)) == Some(
                Found { action: read.action, id: read.id@, len: read.len as nat },
            ) && at + read.len <= body.len(),
            None => token_at(marker@, body@.skip(at as int)) is None,
        },
{
    let ghost here = body@.skip(at as int);
    proof {
        if at + marker.len() <= body.len() {
            assert(here.subrange(0, marker.len() as int) =~= body@.subrange(
                at as int,
                at + marker.len(),
            ));
        }
    }
    if !starts_with_at(body, marker, at) {
        return None;
    }
    if body.len() - at <= marker.len() {
        return None;
    }
    let letter = body[at + marker.len()];
    assert(here[marker.len() as int] == letter);
    let action = if letter == 't' {
        PlaceholderAction::Title
    } else if letter == 'p' {
        PlaceholderAction::Path
    } else {
        return None;
    };
    assert(here.skip(marker.len() as int + 1) =~= body@.skip(at + marker.len() + 1));
    match read_id(body, at + marker.len() + 1) {
        Some(read) => Some(ReadToken { action, id: read.id, len: marker.len() + 1 + read.used }),
        None => None,
    }
}

/// `body` with every token replaced by the field it stands for.
pub fn substitute_text(marker: &str, refs: &StrMap<RefDef>, body: &str) -> (r: Result<
    String,
    EvalError,
>)
    ensures
        text_result(r) == substituted(marker@, refs@, body@),
{
    let mark = chars_of(marker);
    let text = chars_of(body);
    let mut out = String::new();
    let mut i: usize = 0;
    assert(text@.skip(0) =~= text@);
    assert forall|t: Seq<char>| Seq::<char>::empty() + t =~= t by {}
    while i < text.len()
        invariant
            i <= text.len(),
            mark@ == marker@,
            text@ == body@,
            substituted(marker@, refs@, body@) == prepend(
                out@,
                substituted(marker@, refs@, text@.skip(i as int)),
            ),
        decreases text.len() - i,
    {
        let ghost rest = text@.skip(i as int);
        let ghost before = out@;
        match read_token(mark.as_slice(), text.as_slice(), i) {
            Some(read) => {
                match refs.get(read.id.as_str()) {
                    None => {
                        return Err(EvalError::UndefinedReference);
                    },
                    Some(def) => {
                        match read.action {
                            PlaceholderAction::Title => out.append(def.title.as_str()),
                            PlaceholderAction::Path => out.append(def.slug.as_str()),
                        }
                        proof {
                            assert(rest.skip(read.len as int) =~= text@.skip(i + read.len));
                            let field = field_of(refs@[read.id@], read.action);
                            assert forall|t: Seq<char>| (before + field) + t =~= before + (field
                                + t) by {}
                        }
                        i = i + read.len;
                    },
                }
            },
            None => {
                out.push(text[i]);
                proof {
                    assert(rest[0] == text@[i as int]);
                    assert(rest.skip(1) =~= text@.skip(i + 1));
                    assert forall|t: Seq<char>| before.push(text@[i as int]) + t =~= before + (
                    seq![text@[i as int]] + t) by {}
                }
                i = i + 1;
            },
        }
    }
    assert(out@ + Seq::<char>::empty() =~= out@);
    Ok(out)
}

} // verus!
