//! Lengths in UTF-8 bytes of text held as characters, and cutting at a byte.
use vstd::prelude::*;
use vstd::utf8::{encode_scalar, encode_utf8};

use crate::text::head;

verus! {

/// Number of bytes that `s` takes in UTF-8.
pub open spec fn byte_len(s: Seq<char>) -> nat {
    encode_utf8(s).len()
}

/// The first `k` characters of `s` take `n` bytes.
pub open spec fn cut_index(s: Seq<char>, n: nat, k: int) -> bool {
    0 <= k <= s.len() && byte_len(s.take(k)) == n
}

/// The first `n` bytes of `s`, where `s` is that long and no character lies across the cut.
pub open spec fn byte_prefix(s: Seq<char>, n: nat) -> Option<Seq<char>> {
    if exists|k: int| cut_index(s, n, k) {
        Some(s.take(choose|k: int| cut_index(s, n, k)))
    } else {
        None
    }
}

proof fn lemma_encode_concat(a: Seq<char>, b: Seq<char>)
    ensures
        encode_utf8(a + b) == encode_utf8(a) + encode_utf8(b),
    decreases a.len(),
{
    if a.len() == 0 {
        assert(a + b =~= b);
        assert(encode_utf8(a) + encode_utf8(b) =~= encode_utf8(b));
    } else {
        lemma_encode_concat(a.drop_first(), b);
        assert((a + b).drop_first() =~= a.drop_first() + b);
        assert(encode_utf8(a + b) =~= encode_utf8(a) + encode_utf8(b));
    }
}

/// One character more makes a prefix longer by that character's width, one byte to four.
pub proof fn lemma_byte_len_step(s: Seq<char>, k: int)
    requires
        0 <= k < s.len(),
    ensures
        byte_len(s.take(k + 1)) == byte_len(s.take(k)) + encode_scalar(s[k] as u32).len(),
        1 <= encode_scalar(s[k] as u32).len() <= 4,
{
    let one = seq![s[k]];
    assert(s.take(k + 1) =~= s.take(k) + one);
    lemma_encode_concat(s.take(k), one);
    reveal_with_fuel(encode_utf8, 2);
    assert(one.drop_first() =~= Seq::empty());
    assert(encode_utf8(one) =~= encode_scalar(s[k] as u32));
}

/// A longer prefix takes more bytes.
pub proof fn lemma_byte_len_monotone(s: Seq<char>, i: int, j: int)
    requires
        0 <= i < j <= s.len(),
    ensures
        byte_len(s.take(i)) < byte_len(s.take(j)),
    decreases j - i,
{
    lemma_byte_len_step(s, j - 1);
    if i < j - 1 {
        lemma_byte_len_monotone(s, i, j - 1);
    }
}

/// At most one number of characters takes `n` bytes, so it is the one that `byte_prefix` cuts at.
pub proof fn lemma_cut_unique(s: Seq<char>, n: nat, k: int)
    requires
        cut_index(s, n, k),
    ensures
        byte_prefix(s, n) == Some(s.take(k)),
{
    let c = choose|k: int| cut_index(s, n, k);
    if c < k {
        lemma_byte_len_monotone(s, c, k);
    } else if k < c {
        lemma_byte_len_monotone(s, k, c);
    }
}

/// Number of bytes that `c` takes in UTF-8.
fn char_width(c: char) -> (w: usize)
    ensures
        w == encode_scalar(c as u32).len(),
{
    let n: u32 = c as u32;
    if n <= 0x7f {
        1
    } else if n <= 0x7ff {
        2
    } else if n <= 0xffff {
        3
    } else {
        4
    }
}

/// Whether `s` takes more than `n` bytes.
pub fn longer_than(s: &[char], n: usize) -> (r: bool)
    requires
        n <= 1000,
    ensures
        r == (byte_len(s@) > n),
{
    let mut i: usize = 0;
    let mut total: usize = 0;
    assert(s@.take(0) =~= Seq::empty());
    while i < s.len()
        invariant
            n <= 1000,
            i <= s.len(),
            total == byte_len(s@.take(i as int)),
            total <= n,
        decreases s.len() - i,
    {
        proof {
            lemma_byte_len_step(s@, i as int);
        }
        total = total + char_width(s[i]);
        i += 1;
        if total > n {
            proof {
                assert(s@.take(s.len() as int) =~= s@);
                if i < s.len() {
                    lemma_byte_len_monotone(s@, i as int, s.len() as int);
                }
            }
            return true;
        }
    }
    assert(s@.take(i as int) =~= s@);
    false
}

/// The first `n` bytes of `s`, where `s` can be cut there.
pub fn leading_bytes(s: &[char], n: usize) -> (r: Option<&[char]>)
    requires
        n <= 1000,
    ensures
        (match r {
            Some(t) => byte_prefix(s@, n as nat) == Some(t@),
            None => byte_prefix(s@, n as nat) is None,
        }),
{
    let mut i: usize = 0;
    let mut total: usize = 0;
    assert(s@.take(0) =~= Seq::empty());
    while i < s.len() && total < n
        invariant
            n <= 1000,
            i <= s.len(),
            total == byte_len(s@.take(i as int)),
            total <= n + 3,
            i > 0 ==> byte_len(s@.take(i - 1)) < n,
        decreases s.len() - i,
    {
        proof {
            lemma_byte_len_step(s@, i as int);
        }
        total = total + char_width(s[i]);
        i += 1;
    }
    if total == n {
        proof {
            lemma_cut_unique(s@, n as nat, i as int);
        }
        Some(head(s, i))
    } else {
        proof {
            assert forall|k: int| !cut_index(s@, n as nat, k) by {
                if cut_index(s@, n as nat, k) {
                    if k < i {
                        if k < i - 1 {
                            lemma_byte_len_monotone(s@, k, i - 1);
                        }
                    } else if i < k {
                        lemma_byte_len_monotone(s@, i as int, k);
                    }
                }
            }
        }
        None
    }
}

// ── Laws ────────────────────────────────────────────────────────────────────────────────────────

/// The bytes of a text are those of its parts, and a character takes one byte to four.
pub proof fn law_byte_len(a: Seq<char>, c: char, b: Seq<char>)
    ensures
        byte_len(Seq::empty()) == 0,
        byte_len(a + seq![c] + b) == byte_len(a) + byte_len(b) + (if c <= '\u{7f}' {
            1int
        } else if c <= '\u{7ff}' {
            2
        } else if c <= '\u{ffff}' {
            3
        } else {
            4
        }),
{
    let one = seq![c];
    lemma_encode_concat(a + one, b);
    lemma_encode_concat(a, one);
    reveal_with_fuel(encode_utf8, 2);
    assert(one.drop_first() =~= Seq::empty());
    assert(encode_utf8(one) =~= encode_scalar(c as u32));
}

/// A text is cut after a number of bytes if and only if a part at its start takes that many, and
/// that part is what is cut off.
pub proof fn law_cut_after_bytes(s: Seq<char>, n: nat)
    ensures
        (match byte_prefix(s, n) {
            Some(a) => byte_len(a) == n && exists|b: Seq<char>| s == #[trigger] (a + b),
            None => forall|a: Seq<char>, b: Seq<char>|
                s == #[trigger] (a + b) ==> byte_len(a) != n,
        }),
{
    if exists|k: int| cut_index(s, n, k) {
        let k = choose|k: int| cut_index(s, n, k);
        assert(s =~= s.take(k) + s.skip(k));
    } else {
        assert forall|a: Seq<char>, b: Seq<char>| s == #[trigger] (a + b) implies byte_len(a)
            != n by {
            if byte_len(a) == n {
                assert(s.take(a.len() as int) =~= a);
                assert(cut_index(s, n, a.len() as int));
            }
        }
    }
}

} // verus!
