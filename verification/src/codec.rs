//! The persisted JSON documents.
//!
//! The history file is one JSON object whose `list_items` field holds the
//! entries, in order, as strings; the preferences file is one JSON object
//! with the two boolean fields `trim_clips` and `save_history`.  Both are
//! written in a fixed canonical form — no stray whitespace, lowercase
//! escapes — and read back by parsers built for that form, which is all
//! this program ever writes.  Encoding and parsing are inverse; see
//! [`lemma_history_round_trip`].

use vstd::prelude::*;

use crate::history::ClipboardHistory;
use crate::text::chars_of;
use crate::text::push_char;

verus! {

/// The lowercase hexadecimal digit with value `n`.
pub open spec fn hex_digit(n: int) -> char {
    if n == 0 {
        '0'
    } else if n == 1 {
        '1'
    } else if n == 2 {
        '2'
    } else if n == 3 {
        '3'
    } else if n == 4 {
        '4'
    } else if n == 5 {
        '5'
    } else if n == 6 {
        '6'
    } else if n == 7 {
        '7'
    } else if n == 8 {
        '8'
    } else if n == 9 {
        '9'
    } else if n == 10 {
        'a'
    } else if n == 11 {
        'b'
    } else if n == 12 {
        'c'
    } else if n == 13 {
        'd'
    } else if n == 14 {
        'e'
    } else {
        'f'
    }
}

/// The value of a lowercase hexadecimal digit, or `-1` for any other
/// character.
pub open spec fn from_hex(c: char) -> int {
    if c == '0' {
        0
    } else if c == '1' {
        1
    } else if c == '2' {
        2
    } else if c == '3' {
        3
    } else if c == '4' {
        4
    } else if c == '5' {
        5
    } else if c == '6' {
        6
    } else if c == '7' {
        7
    } else if c == '8' {
        8
    } else if c == '9' {
        9
    } else if c == 'a' {
        10
    } else if c == 'b' {
        11
    } else if c == 'c' {
        12
    } else if c == 'd' {
        13
    } else if c == 'e' {
        14
    } else if c == 'f' {
        15
    } else {
        -1
    }
}

/// How one character is written inside a JSON string: the quote, the
/// backslash and the common control characters get two-character escapes,
/// any other control character a `\u00..` escape, and everything else
/// stands as itself.
pub open spec fn escape_char(c: char) -> Seq<char> {
    if c == '"' {
        seq!['\\', '"']
    } else if c == '\\' {
        seq!['\\', '\\']
    } else if c == '\n' {
        seq!['\\', 'n']
    } else if c == '\r' {
        seq!['\\', 'r']
    } else if c == '\t' {
        seq!['\\', 't']
    } else if (c as int) < 0x20 {
        seq!['\\', 'u', '0', '0', hex_digit((c as int) / 16), hex_digit((c as int) % 16)]
    } else {
        seq![c]
    }
}

/// A whole string, character by character, as it is written inside its
/// quotes.
pub open spec fn escape_seq(s: Seq<char>) -> Seq<char>
    decreases s.len(),
{
    if s.len() == 0 {
        Seq::empty()
    } else {
        escape_char(s[0]) + escape_seq(s.drop_first())
    }
}

/// A string as a JSON string literal: its escaped form between quotes.
pub open spec fn quote_seq(s: Seq<char>) -> Seq<char> {
    seq!['"'] + escape_seq(s) + seq!['"']
}

/// The entries as the comma-separated body of a JSON array.
pub open spec fn items_body(l: Seq<Seq<char>>) -> Seq<char>
    decreases l.len(),
{
    if l.len() == 0 {
        Seq::empty()
    } else if l.len() == 1 {
        quote_seq(l[0])
    } else {
        quote_seq(l[0]) + seq![','] + items_body(l.drop_first())
    }
}

/// The opening of the history document, up to and including the `[`.
pub open spec fn history_prefix() -> Seq<char> {
    seq!['{', '"', 'l', 'i', 's', 't', '_', 'i', 't', 'e', 'm', 's', '"', ':', '[']
}

/// The history document for the entries `l`.
pub open spec fn encode_history_seq(l: Seq<Seq<char>>) -> Seq<char> {
    history_prefix() + items_body(l) + seq![']', '}']
}

/// A JSON boolean.
pub open spec fn bool_seq(b: bool) -> Seq<char> {
    if b {
        seq!['t', 'r', 'u', 'e']
    } else {
        seq!['f', 'a', 'l', 's', 'e']
    }
}

/// The opening of the preferences document, up to and including the colon
/// after `trim_clips`.
pub open spec fn config_prefix() -> Seq<char> {
    seq!['{', '"', 't', 'r', 'i', 'm', '_', 'c', 'l', 'i', 'p', 's', '"', ':']
}

/// The middle of the preferences document, from the comma up to and
/// including the colon after `save_history`.
pub open spec fn config_mid() -> Seq<char> {
    seq![',', '"', 's', 'a', 'v', 'e', '_', 'h', 'i', 's', 't', 'o', 'r', 'y', '"', ':']
}

/// The preferences document for the two flags.
pub open spec fn encode_config_seq(trim_clips: bool, save_history: bool) -> Seq<char> {
    config_prefix() + bool_seq(trim_clips) + config_mid() + bool_seq(save_history) + seq!['}']
}

/// Escaping a string one character longer appends that character's
/// escape.
proof fn lemma_escape_snoc(s: Seq<char>, c: char)
    ensures
        escape_seq(s.push(c)) == escape_seq(s) + escape_char(c),
    decreases s.len(),
{
    if s.len() == 0 {
        assert(s.push(c) =~= seq![c]);
        assert(seq![c].drop_first() =~= Seq::<char>::empty());
        assert(escape_seq(Seq::<char>::empty()) =~= Seq::<char>::empty());
        assert(escape_seq(seq![c]) == escape_char(c) + escape_seq(Seq::<char>::empty()));
        assert(escape_char(c) + Seq::<char>::empty() =~= escape_char(c));
        assert(escape_seq(s) + escape_char(c) =~= escape_char(c));
    } else {
        assert(s.push(c).drop_first() =~= s.drop_first().push(c));
        lemma_escape_snoc(s.drop_first(), c);
        assert(escape_char(s.push(c)[0]) + (escape_seq(s.drop_first()) + escape_char(c))
            =~= (escape_char(s[0]) + escape_seq(s.drop_first())) + escape_char(c));
    }
}

/// One more entry extends the array body by a comma (unless it is the
/// first) and the entry's quoted form.
proof fn lemma_items_body_snoc(l: Seq<Seq<char>>, x: Seq<char>)
    ensures
        l.len() == 0 ==> items_body(l.push(x)) == quote_seq(x),
        l.len() > 0 ==> items_body(l.push(x)) == items_body(l) + seq![','] + quote_seq(x),
    decreases l.len(),
{
    if l.len() == 0 {
        assert(l.push(x) =~= seq![x]);
        assert(items_body(seq![x]) == quote_seq(x));
    } else {
        assert(l.push(x).drop_first() =~= l.drop_first().push(x));
        lemma_items_body_snoc(l.drop_first(), x);
        if l.len() == 1 {
            assert(items_body(l.push(x)) == quote_seq(l[0]) + seq![','] + quote_seq(x));
            assert(items_body(l) == quote_seq(l[0]));
        } else {
            assert(items_body(l.push(x)) == quote_seq(l[0]) + seq![','] + (items_body(l.drop_first())
                + seq![','] + quote_seq(x)));
            assert(quote_seq(l[0]) + seq![','] + (items_body(l.drop_first()) + seq![','] + quote_seq(
                x,
            )) =~= (quote_seq(l[0]) + seq![','] + items_body(l.drop_first())) + seq![','] + quote_seq(
                x,
            ));
        }
    }
}

/// The lowercase hexadecimal digit with value `n`.
fn hex_char(n: u8) -> (c: char)
    requires
        n < 16,
    ensures
        c == hex_digit(n as int),
{
    if n == 0 {
        '0'
    } else if n == 1 {
        '1'
    } else if n == 2 {
        '2'
    } else if n == 3 {
        '3'
    } else if n == 4 {
        '4'
    } else if n == 5 {
        '5'
    } else if n == 6 {
        '6'
    } else if n == 7 {
        '7'
    } else if n == 8 {
        '8'
    } else if n == 9 {
        '9'
    } else if n == 10 {
        'a'
    } else if n == 11 {
        'b'
    } else if n == 12 {
        'c'
    } else if n == 13 {
        'd'
    } else if n == 14 {
        'e'
    } else {
        'f'
    }
}

/// Appends the escaped form of `item` to `out`.
fn append_escaped(out: &mut String, item: &str)
    ensures
        final(out)@ == old(out)@ + escape_seq(item@),
{
    let n = item.unicode_len();
    proof {
        assert(item@.take(0) =~= Seq::<char>::empty());
        assert(old(out)@ + escape_seq(item@.take(0)) =~= old(out)@);
    }
    let mut j: usize = 0;
    while j < n
        invariant
            j <= n,
            n == item@.len(),
            out@ == old(out)@ + escape_seq(item@.take(j as int)),
        decreases n - j,
    {
        let c = item.get_char(j);
        if c == '"' {
            push_char(out, '\\');
            push_char(out, '"');
        } else if c == '\\' {
            push_char(out, '\\');
            push_char(out, '\\');
        } else if c == '\n' {
            push_char(out, '\\');
            push_char(out, 'n');
        } else if c == '\r' {
            push_char(out, '\\');
            push_char(out, 'r');
        } else if c == '\t' {
            push_char(out, '\\');
            push_char(out, 't');
        } else if (c as u32) < 0x20 {
            let code = c as u32;
            push_char(out, '\\');
            push_char(out, 'u');
            push_char(out, '0');
            push_char(out, '0');
            push_char(out, hex_char((code / 16) as u8));
            push_char(out, hex_char((code % 16) as u8));
        } else {
            push_char(out, c);
        }
        proof {
            lemma_escape_snoc(item@.take(j as int), c);
            assert(item@.take(j as int).push(c) =~= item@.take(j as int + 1));
            assert(out@ =~= old(out)@ + escape_seq(item@.take(j as int + 1)));
        }
        j = j + 1;
    }
    proof {
        assert(item@.take(n as int) =~= item@);
    }
}

/// The history document for the entries of `h`, ready to be written to
/// the history file.
pub fn history_document(h: &ClipboardHistory) -> (s: String)
    ensures
        s@ == encode_history_seq(h@),
{
    let items = h.get_items();
    let mut out = String::from_str("{\"list_items\":[");
    proof {
        reveal_strlit("{\"list_items\":[");
        assert(out@ =~= history_prefix());
        assert(out@ =~= history_prefix() + items_body(items.deep_view().take(0)));
    }
    let mut i: usize = 0;
    while i < items.len()
        invariant
            i <= items@.len(),
            items.deep_view() == h@,
            out@ == history_prefix() + items_body(items.deep_view().take(i as int)),
        decreases items@.len() - i,
    {
        if i > 0 {
            push_char(&mut out, ',');
        }
        push_char(&mut out, '"');
        append_escaped(&mut out, items[i].as_str());
        push_char(&mut out, '"');
        proof {
            let l = items.deep_view();
            assert(l[i as int] == items@[i as int]@);
            lemma_items_body_snoc(l.take(i as int), l[i as int]);
            assert(l.take(i as int).push(l[i as int]) =~= l.take(i as int + 1));
            if i == 0 {
                assert(out@ =~= history_prefix() + items_body(l.take(i as int + 1)));
            } else {
                assert(out@ =~= history_prefix() + items_body(l.take(i as int + 1)));
            }
        }
        i = i + 1;
    }
    push_char(&mut out, ']');
    push_char(&mut out, '}');
    proof {
        assert(items.deep_view().take(items@.len() as int) =~= items.deep_view());
        assert(out@ =~= encode_history_seq(h@));
    }
    out
}

/// Whether `c` closes a two-character escape.
pub open spec fn is_short_escape(c: char) -> bool {
    c == '"' || c == '\\' || c == 'n' || c == 'r' || c == 't'
}

/// The character a two-character escape stands for.
pub open spec fn unescape_short(c: char) -> char {
    if c == '"' {
        '"'
    } else if c == '\\' {
        '\\'
    } else if c == 'n' {
        '\n'
    } else if c == 'r' {
        '\r'
    } else {
        '\t'
    }
}

/// The character a `\u00..` escape with these two digits stands for.
pub open spec fn hex_char_of(h1: char, h2: char) -> char {
    (from_hex(h1) * 16 + from_hex(h2)) as char
}

/// `r` with `p` put in front of the decoded text, when it decoded at all.
pub open spec fn prepend_str(p: Seq<char>, r: Option<(Seq<char>, Seq<char>)>) -> Option<
    (Seq<char>, Seq<char>),
> {
    match r {
        None => None,
        Some((t, rest)) => Some((p + t, rest)),
    }
}

/// Decodes a JSON string from after its opening quote up to and past its
/// closing quote.  Returns the decoded text and what follows the closing
/// quote, or nothing when `s` is not such a string.
pub open spec fn d_string(s: Seq<char>) -> Option<(Seq<char>, Seq<char>)>
    decreases s.len(),
{
    if s.len() == 0 {
        None
    } else if s[0] == '"' {
        Some((Seq::empty(), s.drop_first()))
    } else if s[0] == '\\' {
        if s.len() >= 2 && is_short_escape(s[1]) {
            prepend_str(seq![unescape_short(s[1])], d_string(s.skip(2)))
        } else if s.len() >= 6 && s[1] == 'u' && s[2] == '0' && s[3] == '0' && from_hex(s[4]) >= 0
            && from_hex(s[5]) >= 0 {
            prepend_str(seq![hex_char_of(s[4], s[5])], d_string(s.skip(6)))
        } else {
            None
        }
    } else {
        prepend_str(seq![s[0]], d_string(s.drop_first()))
    }
}

/// Whatever a string decodes to, what follows it is shorter than what it
/// was decoded from.
pub proof fn lemma_d_string_rest(s: Seq<char>)
    ensures
        d_string(s) matches Some((t, r)) ==> r.len() < s.len(),
    decreases s.len(),
{
    if s.len() == 0 {
    } else if s[0] == '"' {
    } else if s[0] == '\\' {
        if s.len() >= 2 && is_short_escape(s[1]) {
            lemma_d_string_rest(s.skip(2));
        } else if s.len() >= 6 && s[1] == 'u' && s[2] == '0' && s[3] == '0' && from_hex(s[4]) >= 0
            && from_hex(s[5]) >= 0 {
            lemma_d_string_rest(s.skip(6));
        }
    } else {
        lemma_d_string_rest(s.drop_first());
    }
}

/// `r` with `p` put in front of the decoded entries, when they decoded at
/// all.
pub open spec fn prepend_items(p: Seq<Seq<char>>, r: Option<(Seq<Seq<char>>, Seq<char>)>) -> Option<
    (Seq<Seq<char>>, Seq<char>),
> {
    match r {
        None => None,
        Some((l, rest)) => Some((p + l, rest)),
    }
}

/// Decodes the body of the JSON array of strings, from after the `[` up
/// to and past the `]`.  Returns the entries and what follows the `]`,
/// or nothing when `s` is not such a body.
pub open spec fn d_items(s: Seq<char>) -> Option<(Seq<Seq<char>>, Seq<char>)>
    decreases s.len(),
{
    if s.len() == 0 {
        None
    } else if s[0] == ']' {
        Some((Seq::empty(), s.drop_first()))
    } else if s[0] == '"' {
        match d_string(s.drop_first()) {
            None => None,
            Some((t, r)) => {
                proof {
                    lemma_d_string_rest(s.drop_first());
                }
                if r.len() > 0 && r[0] == ',' {
                    prepend_items(seq![t], d_items(r.drop_first()))
                } else if r.len() > 0 && r[0] == ']' {
                    Some((seq![t], r.drop_first()))
                } else {
                    None
                }
            },
        }
    } else {
        None
    }
}

/// Decodes a whole history document: the fixed opening, the entries, and
/// the closing `]}` with nothing after it.
pub open spec fn d_history(s: Seq<char>) -> Option<Seq<Seq<char>>> {
    if s.len() >= 15 && s.subrange(0, 15) == history_prefix() {
        match d_items(s.skip(15)) {
            None => None,
            Some((l, r)) => if r == seq!['}'] {
                Some(l)
            } else {
                None
            },
        }
    } else {
        None
    }
}

/// Decodes a whole preferences document: one of the four texts this
/// program writes.
pub open spec fn d_config(s: Seq<char>) -> Option<(bool, bool)> {
    if s == encode_config_seq(true, true) {
        Some((true, true))
    } else if s == encode_config_seq(true, false) {
        Some((true, false))
    } else if s == encode_config_seq(false, true) {
        Some((false, true))
    } else if s == encode_config_seq(false, false) {
        Some((false, false))
    } else {
        None
    }
}

/// A control character's value is non-negative and casts back to the
/// character it came from.
proof fn lemma_control_char_code(c: char)
    requires
        (c as int) < 0x20,
    ensures
        0 <= c as int,
        ((c as int) as char) == c,
{
}

/// Reading a lowercase hexadecimal digit back gives the value it was
/// written from.
proof fn lemma_hex_inverse(n: int)
    requires
        0 <= n < 16,
    ensures
        from_hex(hex_digit(n)) == n,
{
    if n == 0 {
        assert(from_hex(hex_digit(0)) == 0);
    } else if n == 1 {
        assert(from_hex(hex_digit(1)) == 1);
    } else if n == 2 {
        assert(from_hex(hex_digit(2)) == 2);
    } else if n == 3 {
        assert(from_hex(hex_digit(3)) == 3);
    } else if n == 4 {
        assert(from_hex(hex_digit(4)) == 4);
    } else if n == 5 {
        assert(from_hex(hex_digit(5)) == 5);
    } else if n == 6 {
        assert(from_hex(hex_digit(6)) == 6);
    } else if n == 7 {
        assert(from_hex(hex_digit(7)) == 7);
    } else if n == 8 {
        assert(from_hex(hex_digit(8)) == 8);
    } else if n == 9 {
        assert(from_hex(hex_digit(9)) == 9);
    } else if n == 10 {
        assert(from_hex(hex_digit(10)) == 10);
    } else if n == 11 {
        assert(from_hex(hex_digit(11)) == 11);
    } else if n == 12 {
        assert(from_hex(hex_digit(12)) == 12);
    } else if n == 13 {
        assert(from_hex(hex_digit(13)) == 13);
    } else if n == 14 {
        assert(from_hex(hex_digit(14)) == 14);
    } else {
        assert(from_hex(hex_digit(15)) == 15);
    }
}

/// Decoding undoes escaping: an escaped text, its closing quote, and
/// whatever follows decode to that text, with the rest untouched.
proof fn lemma_d_string_of_escape(t: Seq<char>, rest: Seq<char>)
    ensures
        d_string(escape_seq(t) + seq!['"'] + rest) == Some((t, rest)),
    decreases t.len(),
{
    if t.len() == 0 {
        let s = escape_seq(t) + seq!['"'] + rest;
        assert(s =~= seq!['"'] + rest);
        assert(s[0] == '"');
        assert(s.drop_first() =~= rest);
        assert(Seq::<char>::empty() =~= t);
    } else {
        let c = t[0];
        let t2 = t.drop_first();
        let tail = escape_seq(t2) + seq!['"'] + rest;
        let s = escape_seq(t) + seq!['"'] + rest;
        assert(escape_seq(t) == escape_char(c) + escape_seq(t2));
        assert(s =~= escape_char(c) + tail);
        lemma_d_string_of_escape(t2, rest);
        if c == '"' || c == '\\' || c == '\n' || c == '\r' || c == '\t' {
            assert(s[0] == '\\');
            assert(s.len() >= 2);
            assert(is_short_escape(s[1]));
            assert(unescape_short(s[1]) == c);
            assert(s.skip(2) =~= tail);
            assert(d_string(s) == prepend_str(seq![c], Some((t2, rest))));
            assert(seq![c] + t2 =~= t);
        } else if (c as int) < 0x20 {
            let code = c as int;
            let h1 = hex_digit(code / 16);
            let h2 = hex_digit(code % 16);
            assert(escape_char(c) =~= seq!['\\', 'u', '0', '0', h1, h2]);
            assert(s[0] == '\\');
            assert(s[1] == 'u');
            assert(!is_short_escape(s[1]));
            assert(s.len() >= 6);
            assert(s[2] == '0');
            assert(s[3] == '0');
            assert(s[4] == h1);
            assert(s[5] == h2);
            lemma_control_char_code(c);
            assert(0 <= code < 0x20);
            assert(0 <= code / 16 < 16 && 0 <= code % 16 < 16) by (nonlinear_arith)
                requires
                    0 <= code < 0x20,
            ;
            lemma_hex_inverse(code / 16);
            lemma_hex_inverse(code % 16);
            assert(from_hex(h1) == code / 16);
            assert(from_hex(h2) == code % 16);
            assert(from_hex(s[4]) >= 0);
            assert(from_hex(s[5]) >= 0);
            assert(from_hex(s[4]) * 16 + from_hex(s[5]) == code);
            assert(hex_char_of(s[4], s[5]) == c);
            assert(s.skip(6) =~= tail);
            assert(d_string(s) == prepend_str(seq![c], Some((t2, rest))));
            assert(seq![c] + t2 =~= t);
        } else {
            assert(escape_char(c) =~= seq![c]);
            assert(s[0] == c);
            assert(s[0] != '"' && s[0] != '\\');
            assert(s.drop_first() =~= tail);
            assert(d_string(s) == prepend_str(seq![c], Some((t2, rest))));
            assert(seq![c] + t2 =~= t);
        }
    }
}

/// Decoding undoes encoding of the array body: the encoded entries, the
/// closing `]`, and whatever follows decode to those entries.
proof fn lemma_d_items_of_body(l: Seq<Seq<char>>, rest: Seq<char>)
    ensures
        d_items(items_body(l) + seq![']'] + rest) == Some((l, rest)),
    decreases l.len(),
{
    let s = items_body(l) + seq![']'] + rest;
    if l.len() == 0 {
        assert(s =~= seq![']'] + rest);
        assert(s[0] == ']');
        assert(s.drop_first() =~= rest);
        assert(Seq::<Seq<char>>::empty() =~= l);
    } else if l.len() == 1 {
        assert(items_body(l) == quote_seq(l[0]));
        assert(s =~= seq!['"'] + (escape_seq(l[0]) + seq!['"'] + (seq![']'] + rest)));
        assert(s[0] == '"');
        assert(s[0] != ']');
        assert(s.drop_first() =~= escape_seq(l[0]) + seq!['"'] + (seq![']'] + rest));
        lemma_d_string_of_escape(l[0], seq![']'] + rest);
        let r = seq![']'] + rest;
        assert(d_string(s.drop_first()) == Some((l[0], r)));
        assert(r.len() > 0 && r[0] == ']');
        assert(r[0] != ',');
        assert(r.drop_first() =~= rest);
        assert(d_items(s) == Some((seq![l[0]], rest)));
        assert(seq![l[0]] =~= l);
    } else {
        let l2 = l.drop_first();
        assert(items_body(l) == quote_seq(l[0]) + seq![','] + items_body(l2));
        let after = seq![','] + (items_body(l2) + seq![']'] + rest);
        assert(s =~= seq!['"'] + (escape_seq(l[0]) + seq!['"'] + after));
        assert(s[0] == '"');
        assert(s[0] != ']');
        assert(s.drop_first() =~= escape_seq(l[0]) + seq!['"'] + after);
        lemma_d_string_of_escape(l[0], after);
        assert(d_string(s.drop_first()) == Some((l[0], after)));
        assert(after.len() > 0 && after[0] == ',');
        assert(after.drop_first() =~= items_body(l2) + seq![']'] + rest);
        lemma_d_items_of_body(l2, rest);
        assert(d_items(after.drop_first()) == Some((l2, rest)));
        assert(d_items(s) == prepend_items(seq![l[0]], Some((l2, rest))));
        assert(seq![l[0]] + l2 =~= l);
    }
}

/// Reading back an encoded history document yields exactly the entries
/// it was written from.
pub proof fn lemma_history_round_trip(l: Seq<Seq<char>>)
    ensures
        d_history(encode_history_seq(l)) == Some(l),
{
    let s = encode_history_seq(l);
    assert(s =~= history_prefix() + (items_body(l) + seq![']'] + seq!['}']));
    assert(s.len() >= 15) by {
        assert(history_prefix().len() == 15);
    }
    assert(s.subrange(0, 15) =~= history_prefix());
    assert(s.skip(15) =~= items_body(l) + seq![']'] + seq!['}']);
    lemma_d_items_of_body(l, seq!['}']);
    assert(d_items(s.skip(15)) == Some((l, seq!['}'])));
}

/// Reading back an encoded preferences document yields exactly the two
/// flags it was written from.
pub proof fn lemma_config_round_trip(trim_clips: bool, save_history: bool)
    ensures
        d_config(encode_config_seq(trim_clips, save_history)) == Some((trim_clips, save_history)),
{
    lemma_config_encodings_distinct();
}

/// The four preferences documents are pairwise distinct.
proof fn lemma_config_encodings_distinct()
    ensures
        encode_config_seq(true, true) != encode_config_seq(true, false),
        encode_config_seq(true, true) != encode_config_seq(false, true),
        encode_config_seq(true, true) != encode_config_seq(false, false),
        encode_config_seq(true, false) != encode_config_seq(false, true),
        encode_config_seq(true, false) != encode_config_seq(false, false),
        encode_config_seq(false, true) != encode_config_seq(false, false),
{
    assert(encode_config_seq(true, true).len() == 39);
    assert(encode_config_seq(true, false).len() == 40);
    assert(encode_config_seq(false, true).len() == 40);
    assert(encode_config_seq(false, false).len() == 41);
    assert(encode_config_seq(true, false)[14] == 't');
    assert(encode_config_seq(false, true)[14] == 'f');
}

/// Putting characters in front one at a time or all at once comes to the
/// same decoded text.
proof fn lemma_prepend_str_push(p: Seq<char>, c: char, r: Option<(Seq<char>, Seq<char>)>)
    ensures
        prepend_str(p, prepend_str(seq![c], r)) == prepend_str(p.push(c), r),
{
    match r {
        None => {},
        Some((t, rest)) => {
            assert(p + (seq![c] + t) =~= p.push(c) + t);
        },
    }
}

/// Putting entries in front one at a time or all at once comes to the
/// same decoded list.
proof fn lemma_prepend_items_push(p: Seq<Seq<char>>, x: Seq<char>, r: Option<(Seq<Seq<char>>, Seq<char>)>)
    ensures
        prepend_items(p, prepend_items(seq![x], r)) == prepend_items(p.push(x), r),
{
    match r {
        None => {},
        Some((l, rest)) => {
            assert(p + (seq![x] + l) =~= p.push(x) + l);
        },
    }
}

/// The value of a lowercase hexadecimal digit, if `c` is one.
fn hex_val(c: char) -> (r: Option<u8>)
    ensures
        r matches Some(n) ==> n < 16 && from_hex(c) == n as int,
        r is None ==> from_hex(c) < 0,
{
    if c == '0' {
        Some(0)
    } else if c == '1' {
        Some(1)
    } else if c == '2' {
        Some(2)
    } else if c == '3' {
        Some(3)
    } else if c == '4' {
        Some(4)
    } else if c == '5' {
        Some(5)
    } else if c == '6' {
        Some(6)
    } else if c == '7' {
        Some(7)
    } else if c == '8' {
        Some(8)
    } else if c == '9' {
        Some(9)
    } else if c == 'a' {
        Some(10)
    } else if c == 'b' {
        Some(11)
    } else if c == 'c' {
        Some(12)
    } else if c == 'd' {
        Some(13)
    } else if c == 'e' {
        Some(14)
    } else if c == 'f' {
        Some(15)
    } else {
        None
    }
}

/// Decodes a JSON string from just after its opening quote at `start` up
/// to and past its closing quote.
fn parse_string_body(v: &Vec<char>, start: usize) -> (r: Option<(String, usize)>)
    requires
        start <= v@.len(),
    ensures
        r matches Some((t, j)) ==> start < j <= v@.len() && d_string(v@.skip(start as int))
            == Some((t@, v@.skip(j as int))),
        r is None ==> d_string(v@.skip(start as int)) is None,
{
    let mut acc = String::new();
    let mut i = start;
    loop
        invariant
            start <= i <= v@.len(),
            d_string(v@.skip(start as int)) == prepend_str(acc@, d_string(v@.skip(i as int))),
        decreases v@.len() - i,
    {
        let ghost s = v@.skip(i as int);
        if i == v.len() {
            proof {
                assert(s.len() == 0);
                assert(d_string(s) is None);
            }
            return None;
        }
        let c = v[i];
        proof {
            assert(s[0] == v@[i as int]);
        }
        if c == '"' {
            proof {
                assert(s.drop_first() =~= v@.skip(i as int + 1));
                assert(d_string(s) == Some((Seq::<char>::empty(), v@.skip(i as int + 1))));
                assert(acc@ + Seq::<char>::empty() =~= acc@);
            }
            return Some((acc, i + 1));
        } else if c == '\\' {
            if v.len() - i < 2 {
                proof {
                    assert(s.len() < 2);
                    assert(d_string(s) is None);
                }
                return None;
            }
            let e = v[i + 1];
            proof {
                assert(s[1] == v@[i as int + 1]);
            }
            if e == '"' || e == '\\' || e == 'n' || e == 'r' || e == 't' {
                let decoded: char = if e == '"' {
                    '"'
                } else if e == '\\' {
                    '\\'
                } else if e == 'n' {
                    '\n'
                } else if e == 'r' {
                    '\r'
                } else {
                    '\t'
                };
                proof {
                    assert(is_short_escape(s[1]));
                    assert(unescape_short(s[1]) == decoded);
                    assert(s.skip(2) =~= v@.skip(i as int + 2));
                    assert(d_string(s) == prepend_str(
                        seq![decoded],
                        d_string(v@.skip(i as int + 2)),
                    ));
                    lemma_prepend_str_push(acc@, decoded, d_string(v@.skip(i as int + 2)));
                }
                push_char(&mut acc, decoded);
                i = i + 2;
            } else if e == 'u' {
                if v.len() - i < 6 {
                    proof {
                        assert(s.len() < 6);
                        assert(!is_short_escape(s[1]));
                        assert(d_string(s) is None);
                    }
                    return None;
                }
                proof {
                    assert(s[2] == v@[i as int + 2]);
                    assert(s[3] == v@[i as int + 3]);
                    assert(s[4] == v@[i as int + 4]);
                    assert(s[5] == v@[i as int + 5]);
                    assert(!is_short_escape(s[1]));
                }
                if !(v[i + 2] == '0' && v[i + 3] == '0') {
                    proof {
                        assert(d_string(s) is None);
                    }
                    return None;
                }
                let h1 = hex_val(v[i + 4]);
                let h2 = hex_val(v[i + 5]);
                if h1.is_none() || h2.is_none() {
                    proof {
                        assert(from_hex(s[4]) < 0 || from_hex(s[5]) < 0);
                        assert(d_string(s) is None);
                    }
                    return None;
                }
                let n1 = h1.unwrap();
                let n2 = h2.unwrap();
                let code: u8 = n1 * 16 + n2;
                let decoded = code as char;
                proof {
                    assert(from_hex(s[4]) == n1 as int);
                    assert(from_hex(s[5]) == n2 as int);
                    assert(hex_char_of(s[4], s[5]) == decoded);
                    assert(s.skip(6) =~= v@.skip(i as int + 6));
                    assert(d_string(s) == prepend_str(
                        seq![decoded],
                        d_string(v@.skip(i as int + 6)),
                    ));
                    lemma_prepend_str_push(acc@, decoded, d_string(v@.skip(i as int + 6)));
                }
                push_char(&mut acc, decoded);
                i = i + 6;
            } else {
                proof {
                    assert(!is_short_escape(s[1]));
                    assert(d_string(s) is None);
                }
                return None;
            }
        } else {
            proof {
                assert(s.drop_first() =~= v@.skip(i as int + 1));
                assert(d_string(s) == prepend_str(seq![c], d_string(v@.skip(i as int + 1))));
                lemma_prepend_str_push(acc@, c, d_string(v@.skip(i as int + 1)));
            }
            push_char(&mut acc, c);
            i = i + 1;
        }
    }
}

/// Decodes the array of strings from just after its `[` at `start` up to
/// and past its `]`.
fn parse_items(v: &Vec<char>, start: usize) -> (r: Option<(Vec<String>, usize)>)
    requires
        start <= v@.len(),
    ensures
        r matches Some((items, j)) ==> start < j <= v@.len() && d_items(v@.skip(start as int))
            == Some((items.deep_view(), v@.skip(j as int))),
        r is None ==> d_items(v@.skip(start as int)) is None,
{
    let mut acc: Vec<String> = Vec::new();
    let mut i = start;
    loop
        invariant
            start <= i <= v@.len(),
            d_items(v@.skip(start as int)) == prepend_items(
                acc.deep_view(),
                d_items(v@.skip(i as int)),
            ),
        decreases v@.len() - i,
    {
        let ghost s = v@.skip(i as int);
        if i == v.len() {
            proof {
                assert(s.len() == 0);
                assert(d_items(s) is None);
            }
            return None;
        }
        let c = v[i];
        proof {
            assert(s[0] == v@[i as int]);
        }
        if c == ']' {
            proof {
                assert(s.drop_first() =~= v@.skip(i as int + 1));
                assert(d_items(s) == Some((Seq::<Seq<char>>::empty(), v@.skip(i as int + 1))));
                assert(acc.deep_view() + Seq::<Seq<char>>::empty() =~= acc.deep_view());
            }
            return Some((acc, i + 1));
        } else if c == '"' {
            proof {
                assert(s.drop_first() =~= v@.skip(i as int + 1));
            }
            match parse_string_body(v, i + 1) {
                None => {
                    proof {
                        assert(d_string(s.drop_first()) is None);
                        assert(d_items(s) is None);
                    }
                    return None;
                },
                Some((t, j)) => {
                    proof {
                        assert(d_string(s.drop_first()) == Some((t@, v@.skip(j as int))));
                    }
                    let ghost rest = v@.skip(j as int);
                    if j == v.len() {
                        proof {
                            assert(rest.len() == 0);
                            assert(d_items(s) is None);
                        }
                        return None;
                    }
                    let d = v[j];
                    proof {
                        assert(rest[0] == v@[j as int]);
                        assert(rest.len() > 0);
                    }
                    if d == ',' {
                        proof {
                            assert(rest.drop_first() =~= v@.skip(j as int + 1));
                            assert(d_items(s) == prepend_items(
                                seq![t@],
                                d_items(v@.skip(j as int + 1)),
                            ));
                            lemma_prepend_items_push(
                                acc.deep_view(),
                                t@,
                                d_items(v@.skip(j as int + 1)),
                            );
                        }
                        let ghost pre = acc.deep_view();
                        acc.push(t);
                        proof {
                            assert forall|k: int| 0 <= k < acc.deep_view().len() implies
                                acc.deep_view()[k] == pre.push(t@)[k] by {
                                if k < pre.len() {
                                    assert(acc@[k] == acc@.subrange(0, pre.len() as int)[k]);
                                }
                            }
                            assert(acc.deep_view() =~= pre.push(t@));
                        }
                        i = j + 1;
                    } else if d == ']' {
                        proof {
                            assert(rest.drop_first() =~= v@.skip(j as int + 1));
                            assert(d_items(s) == Some((seq![t@], v@.skip(j as int + 1))));
                        }
                        let ghost pre = acc.deep_view();
                        acc.push(t);
                        proof {
                            assert forall|k: int| 0 <= k < acc.deep_view().len() implies
                                acc.deep_view()[k] == pre.push(t@)[k] by {
                                if k < pre.len() {
                                    assert(acc@[k] == acc@.subrange(0, pre.len() as int)[k]);
                                }
                            }
                            assert(acc.deep_view() =~= pre.push(t@));
                            assert(pre + seq![t@] =~= pre.push(t@));
                        }
                        return Some((acc, j + 1));
                    } else {
                        proof {
                            assert(d_items(s) is None);
                        }
                        return None;
                    }
                },
            }
        } else {
            proof {
                assert(d_items(s) is None);
            }
            return None;
        }
    }
}

/// Decodes a whole history document into its entries.
pub fn parse_history(s: &str) -> (r: Option<Vec<String>>)
    ensures
        r matches Some(items) ==> d_history(s@) == Some(items.deep_view()),
        r is None ==> d_history(s@) is None,
{
    let v = chars_of(s);
    let pat = chars_of("{\"list_items\":[");
    proof {
        reveal_strlit("{\"list_items\":[");
        assert(pat@ =~= history_prefix());
    }
    if v.len() < 15 {
        return None;
    }
    let mut k: usize = 0;
    while k < 15
        invariant
            k <= 15,
            v@.len() >= 15,
            pat@ == history_prefix(),
            v@ == s@,
            forall|m: int| 0 <= m < k ==> v@[m] == history_prefix()[m],
        decreases 15 - k,
    {
        if v[k] != pat[k] {
            proof {
                assert(s@.subrange(0, 15)[k as int] == v@[k as int]);
                assert(s@.subrange(0, 15) != history_prefix());
            }
            return None;
        }
        k = k + 1;
    }
    proof {
        assert(s@.subrange(0, 15) =~= history_prefix());
    }
    match parse_items(&v, 15) {
        None => {
            proof {
                assert(d_items(s@.skip(15)) is None);
            }
            None
        },
        Some((items, j)) => {
            proof {
                assert(d_items(s@.skip(15)) == Some((items.deep_view(), v@.skip(j as int))));
            }
            if j == v.len() - 1 && v[j] == '}' {
                proof {
                    assert(v@.skip(j as int) =~= seq!['}']);
                }
                Some(items)
            } else {
                proof {
                    let rest = v@.skip(j as int);
                    if rest.len() == 1 {
                        assert(j + 1 == v.len());
                        assert(rest[0] == v@[j as int]);
                        assert(rest != seq!['}']);
                    } else {
                        assert(seq!['}'].len() == 1);
                        assert(rest != seq!['}']);
                    }
                }
                None
            }
        },
    }
}

/// Decodes a whole preferences document into its two flags.
pub fn parse_config(s: &str) -> (r: Option<(bool, bool)>)
    ensures
        r == d_config(s@),
{
    let own = s.to_owned();
    let tt = config_document(true, true);
    let tf = config_document(true, false);
    let ft = config_document(false, true);
    let ff = config_document(false, false);
    if own == tt {
        Some((true, true))
    } else if own == tf {
        Some((true, false))
    } else if own == ft {
        Some((false, true))
    } else if own == ff {
        Some((false, false))
    } else {
        None
    }
}

/// The preferences document for the two flags, ready to be written to
/// the preferences file.
pub fn config_document(trim_clips: bool, save_history: bool) -> (s: String)
    ensures
        s@ == encode_config_seq(trim_clips, save_history),
{
    let mut out = String::from_str("{\"trim_clips\":");
    out.append(if trim_clips {
        "true"
    } else {
        "false"
    });
    out.append(",\"save_history\":");
    out.append(if save_history {
        "true"
    } else {
        "false"
    });
    out.append("}");
    proof {
        reveal_strlit("{\"trim_clips\":");
        reveal_strlit(",\"save_history\":");
        reveal_strlit("true");
        reveal_strlit("false");
        reveal_strlit("}");
        assert(out@ =~= encode_config_seq(trim_clips, save_history));
    }
    out
}

} // verus!
