//! Character classes shared by request validation.
use vstd::prelude::*;
use vstd::std_specs::iter::IteratorSpec;

verus! {

/// `c` has the Unicode `White_Space` property, as `char::is_whitespace` decides.
pub open spec fn is_whitespace_char(c: char) -> bool {
    let n = c as u32;
    ||| 0x09 <= n <= 0x0d
    ||| n == 0x20
    ||| n == 0x85
    ||| n == 0xa0
    ||| n == 0x1680
    ||| 0x2000 <= n <= 0x200a
    ||| n == 0x2028
    ||| n == 0x2029
    ||| n == 0x202f
    ||| n == 0x205f
    ||| n == 0x3000
}

/// The text is empty once leading and trailing whitespace is trimmed.
pub open spec fn blank(s: Seq<char>) -> bool {
    forall|i: int| 0 <= i < s.len() ==> is_whitespace_char(#[trigger] s[i])
}

fn whitespace_char(c: char) -> (r: bool)
    ensures
        r == is_whitespace_char(c),
{
    let n = c as u32;
    (0x09 <= n && n <= 0x0d) || n == 0x20 || n == 0x85 || n == 0xa0 || n == 0x1680 || (0x2000 <= n && n
        <= 0x200a) || n == 0x2028 || n == 0x2029 || n == 0x202f || n == 0x205f || n == 0x3000
}

/// Whether the text holds nothing but whitespace.
pub fn is_blank(s: &str) -> (r: bool)
    ensures
        r == blank(s@),
{
    let mut chars = s.chars();
    let ghost mut done: Seq<char> = Seq::empty();
    loop
        invariant
            s@ == done + chars.remaining(),
            blank(done),
            chars.decrease() is Some,
        decreases chars.decrease()->0,
    {
        let ghost before = chars.remaining();
        match chars.next() {
            Some(c) => {
                if !whitespace_char(c) {
                    proof {
                        assert(s@[done.len() as int] == c);
                    }
                    return false;
                }
                proof {
                    assert(before[0] == c);
                    assert(done.push(c) + chars.remaining() =~= done + before);
                    done = done.push(c);
                }
            },
            None => {
                proof {
                    assert(s@ =~= done);
                }
                return true;
            },
        }
    }
}

/// Whether two texts are equal.
pub fn text_eq(s: &str, t: &str) -> (r: bool)
    ensures
        r == (s@ == t@),
{
    let a = s.to_owned();
    let b = t.to_owned();
    a == b
}

} // verus!
