//! Character-level text helpers: turning strings into character vectors,
//! whitespace trimming, and the display shortening applied to long entries.

use vstd::prelude::*;

verus! {

/// Relies on std's `String::push`: appends one character at the end.
#[verifier::external_body]
pub fn push_char(s: &mut String, c: char)
    ensures
        final(s)@ == old(s)@.push(c),
{
    s.push(c);
}

/// The characters with the Unicode `White_Space` property, the set that
/// `str::trim` removes at both ends.
pub open spec fn is_clip_space(c: char) -> bool {
    ||| ('\u{09}' <= c && c <= '\u{0D}')
    ||| c == ' '
    ||| c == '\u{85}'
    ||| c == '\u{A0}'
    ||| c == '\u{1680}'
    ||| ('\u{2000}' <= c && c <= '\u{200A}')
    ||| c == '\u{2028}'
    ||| c == '\u{2029}'
    ||| c == '\u{202F}'
    ||| c == '\u{205F}'
    ||| c == '\u{3000}'
}

/// Decides whether `c` carries the Unicode `White_Space` property.
pub fn clip_space(c: char) -> (r: bool)
    ensures
        r == is_clip_space(c),
{
    ('\u{09}' <= c && c <= '\u{0D}') || c == ' ' || c == '\u{85}' || c == '\u{A0}'
        || c == '\u{1680}' || ('\u{2000}' <= c && c <= '\u{200A}') || c == '\u{2028}'
        || c == '\u{2029}' || c == '\u{202F}' || c == '\u{205F}' || c == '\u{3000}'
}

/// `s` with its leading whitespace removed.
pub open spec fn trim_front(s: Seq<char>) -> Seq<char>
    decreases s.len(),
{
    if s.len() > 0 && is_clip_space(s[0]) {
        trim_front(s.drop_first())
    } else {
        s
    }
}

/// `s` with its trailing whitespace removed.
pub open spec fn trim_back(s: Seq<char>) -> Seq<char>
    decreases s.len(),
{
    if s.len() > 0 && is_clip_space(s.last()) {
        trim_back(s.drop_last())
    } else {
        s
    }
}

/// `s` with whitespace removed at both ends, as `str::trim` leaves it.
pub open spec fn trimmed(s: Seq<char>) -> Seq<char> {
    trim_back(trim_front(s))
}

/// Removes whitespace at both ends of `s`.
pub fn trim_text(s: &str) -> (t: &str)
    ensures
        t@ == trimmed(s@),
{
    let n = s.unicode_len();
    proof {
        assert(s@.skip(0) =~= s@);
    }
    let mut start: usize = 0;
    while start < n && clip_space(s.get_char(start))
        invariant
            start <= n,
            n == s@.len(),
            trim_front(s@) == trim_front(s@.skip(start as int)),
        decreases n - start,
    {
        proof {
            assert(s@.skip(start as int).drop_first() =~= s@.skip(start as int + 1));
        }
        start = start + 1;
    }
    proof {
        assert(trim_front(s@.skip(start as int)) == s@.skip(start as int));
    }
    proof {
        assert(s@.subrange(start as int, n as int) =~= s@.skip(start as int));
    }
    let mut end: usize = n;
    while end > start && clip_space(s.get_char(end - 1))
        invariant
            start <= end <= n,
            n == s@.len(),
            trim_front(s@) == s@.skip(start as int),
            trim_back(s@.skip(start as int)) == trim_back(s@.subrange(start as int, end as int)),
        decreases end,
    {
        proof {
            assert(s@.subrange(start as int, end as int).last() == s@[end - 1]);
            assert(s@.subrange(start as int, end as int).drop_last() =~= s@.subrange(
                start as int,
                end as int - 1,
            ));
        }
        end = end - 1;
    }
    proof {
        assert(trim_back(s@.subrange(start as int, end as int)) == s@.subrange(
            start as int,
            end as int,
        ));
    }
    s.substring_char(start, end)
}

/// The characters of `s`, in order, as a vector.
pub fn chars_of(s: &str) -> (v: Vec<char>)
    ensures
        v@ == s@,
{
    let n = s.unicode_len();
    let mut v: Vec<char> = Vec::new();
    let mut i: usize = 0;
    while i < n
        invariant
            i <= n,
            n == s@.len(),
            v@ =~= s@.take(i as int),
        decreases n - i,
    {
        v.push(s.get_char(i));
        i = i + 1;
    }
    proof {
        assert(v@ =~= s@);
    }
    v
}

/// How many characters of an entry are shown before it is cut off.
pub const DISPLAY_LIMIT: usize = 100;

/// The text shown for one history entry: when shortening is enabled and
/// the entry runs past [`DISPLAY_LIMIT`] characters, its first
/// [`DISPLAY_LIMIT`] characters followed by `...`; otherwise the entry
/// itself.
pub fn display_text(item: &str, trim_clips: bool) -> (r: String)
    ensures
        trim_clips && item@.len() > DISPLAY_LIMIT ==> r@ == item@.take(DISPLAY_LIMIT as int)
            + seq!['.', '.', '.'],
        !(trim_clips && item@.len() > DISPLAY_LIMIT) ==> r@ == item@,
{
    let n = item.unicode_len();
    if trim_clips && n > DISPLAY_LIMIT {
        let head = item.substring_char(0, DISPLAY_LIMIT);
        let mut r = head.to_owned();
        push_char(&mut r, '.');
        push_char(&mut r, '.');
        push_char(&mut r, '.');
        proof {
            assert(r@ =~= item@.take(DISPLAY_LIMIT as int) + seq!['.', '.', '.']);
        }
        r
    } else {
        item.to_owned()
    }
}

} // verus!
