//! Orderings and renderings of byte strings.
//!
//! The canonical orders of the wire format compare byte strings
//! lexicographically, and asset names additionally by length first (the order
//! of their encoded forms).  This module defines those orders as spec
//! functions, proves that they are total orders, and provides the executable
//! comparisons and the hexadecimal rendering of a byte string.

use vstd::prelude::*;
use vstd::string::StringExecFns;

verus! {

/// Lexicographic order on byte strings; a proper prefix comes first.
pub open spec fn bytes_le(a: Seq<u8>, b: Seq<u8>) -> bool
    decreases a.len(),
{
    if a.len() == 0 {
        true
    } else if b.len() == 0 {
        false
    } else if a[0] < b[0] {
        true
    } else if a[0] > b[0] {
        false
    } else {
        bytes_le(a.drop_first(), b.drop_first())
    }
}

/// Strict lexicographic order on byte strings.
pub open spec fn bytes_lt(a: Seq<u8>, b: Seq<u8>) -> bool {
    bytes_le(a, b) && a != b
}

/// The canonical order of asset names: shorter first, then lexicographic.
/// This is the order of the names' encoded forms.
pub open spec fn name_le(a: Seq<u8>, b: Seq<u8>) -> bool {
    a.len() < b.len() || (a.len() == b.len() && bytes_le(a, b))
}

pub proof fn lemma_bytes_le_refl(a: Seq<u8>)
    ensures
        bytes_le(a, a),
    decreases a.len(),
{
    if a.len() > 0 {
        lemma_bytes_le_refl(a.drop_first());
    }
}

pub proof fn lemma_bytes_le_antisym(a: Seq<u8>, b: Seq<u8>)
    requires
        bytes_le(a, b),
        bytes_le(b, a),
    ensures
        a == b,
    decreases a.len(),
{
    if a.len() == 0 {
        assert(b.len() == 0);
        assert(a =~= b);
    } else {
        assert(b.len() > 0);
        assert(a[0] == b[0]);
        lemma_bytes_le_antisym(a.drop_first(), b.drop_first());
        assert(a =~= seq![a[0]] + a.drop_first());
        assert(b =~= seq![b[0]] + b.drop_first());
    }
}

pub proof fn lemma_bytes_le_trans(a: Seq<u8>, b: Seq<u8>, c: Seq<u8>)
    requires
        bytes_le(a, b),
        bytes_le(b, c),
    ensures
        bytes_le(a, c),
    decreases a.len(),
{
    if a.len() > 0 && b.len() > 0 && c.len() > 0 {
        if a[0] == b[0] && b[0] == c[0] {
            lemma_bytes_le_trans(a.drop_first(), b.drop_first(), c.drop_first());
        }
    }
}

pub proof fn lemma_bytes_le_total(a: Seq<u8>, b: Seq<u8>)
    ensures
        bytes_le(a, b) || bytes_le(b, a),
    decreases a.len(),
{
    if a.len() > 0 && b.len() > 0 && a[0] == b[0] {
        lemma_bytes_le_total(a.drop_first(), b.drop_first());
    }
}

/// `bytes_le`, with the first `i` positions known equal, is decided by the
/// remainders.
pub proof fn lemma_bytes_le_skip(a: Seq<u8>, b: Seq<u8>, i: int)
    requires
        0 <= i <= a.len(),
        i <= b.len(),
        forall|j: int| 0 <= j < i ==> a[j] == b[j],
    ensures
        bytes_le(a, b) == bytes_le(a.skip(i), b.skip(i)),
    decreases i,
{
    if i > 0 {
        assert(a.len() > 0 && b.len() > 0);
        assert(a[0] == b[0]);
        lemma_bytes_le_skip(a.drop_first(), b.drop_first(), i - 1);
        assert(a.drop_first().skip(i - 1) =~= a.skip(i));
        assert(b.drop_first().skip(i - 1) =~= b.skip(i));
    } else {
        assert(a.skip(0) =~= a);
        assert(b.skip(0) =~= b);
    }
}

/// Executable equality of byte strings.
pub fn bytes_eq(a: &Vec<u8>, b: &Vec<u8>) -> (r: bool)
    ensures
        r == (a@ == b@),
{
    if a.len() != b.len() {
        return false;
    }
    let mut i: usize = 0;
    while i < a.len()
        invariant
            a.len() == b.len(),
            i <= a.len(),
            forall|j: int| 0 <= j < i ==> a@[j] == b@[j],
        decreases a.len() - i,
    {
        if a[i] != b[i] {
            return false;
        }
        i = i + 1;
    }
    assert(a@ =~= b@);
    true
}

/// Executable lexicographic comparison.
pub fn bytes_le_exec(a: &Vec<u8>, b: &Vec<u8>) -> (r: bool)
    ensures
        r == bytes_le(a@, b@),
{
    let mut i: usize = 0;
    while i < a.len() && i < b.len()
        invariant
            i <= a.len(),
            i <= b.len(),
            forall|j: int| 0 <= j < i ==> a@[j] == b@[j],
        decreases a.len() - i,
    {
        if a[i] < b[i] {
            proof {
                lemma_bytes_le_skip(a@, b@, i as int);
            }
            return true;
        }
        if a[i] > b[i] {
            proof {
                lemma_bytes_le_skip(a@, b@, i as int);
            }
            return false;
        }
        i = i + 1;
    }
    proof {
        lemma_bytes_le_skip(a@, b@, i as int);
    }
    i >= a.len()
}

/// The character of the hexadecimal digit `n`.
pub open spec fn hex_digit(n: u8) -> char {
    if n == 0 {
        '0'
    } else if n == 1 {
        '1'
    } else if n == 2 {
        '2'
    } else if n == 3 {
        '3'
    } else if n == 4 {
        '4'
    } else if n == 5 {
        '5'
    } else if n == 6 {
        '6'
    } else if n == 7 {
        '7'
    } else if n == 8 {
        '8'
    } else if n == 9 {
        '9'
    } else if n == 10 {
        'a'
    } else if n == 11 {
        'b'
    } else if n == 12 {
        'c'
    } else if n == 13 {
        'd'
    } else if n == 14 {
        'e'
    } else {
        'f'
    }
}

/// The hexadecimal rendering of the first `i` bytes of `b`, two lower-case
/// digits per byte.
pub open spec fn hex_upto(b: Seq<u8>, i: int) -> Seq<char>
    decreases i,
{
    if i <= 0 {
        Seq::empty()
    } else {
        hex_upto(b, i - 1) + seq![hex_digit(b[i - 1] / 16), hex_digit(b[i - 1] % 16)]
    }
}

/// The hexadecimal rendering of `b`.
pub open spec fn hex_of(b: Seq<u8>) -> Seq<char> {
    hex_upto(b, b.len() as int)
}

/// The one-character string of the hexadecimal digit `n`.
fn nibble_str(n: u8) -> (r: &'static str)
    requires
        n < 16,
    ensures
        r@ == seq![hex_digit(n)],
{
    if n == 0 {
        proof {
            reveal_strlit("0");
        }
        assert("0"@ =~= seq![hex_digit(0u8)]);
        "0"
    } else if n == 1 {
        proof {
            reveal_strlit("1");
        }
        assert("1"@ =~= seq![hex_digit(1u8)]);
        "1"
    } else if n == 2 {
        proof {
            reveal_strlit("2");
        }
        assert("2"@ =~= seq![hex_digit(2u8)]);
        "2"
    } else if n == 3 {
        proof {
            reveal_strlit("3");
        }
        assert("3"@ =~= seq![hex_digit(3u8)]);
        "3"
    } else if n == 4 {
        proof {
            reveal_strlit("4");
        }
        assert("4"@ =~= seq![hex_digit(4u8)]);
        "4"
    } else if n == 5 {
        proof {
            reveal_strlit("5");
        }
        assert("5"@ =~= seq![hex_digit(5u8)]);
        "5"
    } else if n == 6 {
        proof {
            reveal_strlit("6");
        }
        assert("6"@ =~= seq![hex_digit(6u8)]);
        "6"
    } else if n == 7 {
        proof {
            reveal_strlit("7");
        }
        assert("7"@ =~= seq![hex_digit(7u8)]);
        "7"
    } else if n == 8 {
        proof {
            reveal_strlit("8");
        }
        assert("8"@ =~= seq![hex_digit(8u8)]);
        "8"
    } else if n == 9 {
        proof {
            reveal_strlit("9");
        }
        assert("9"@ =~= seq![hex_digit(9u8)]);
        "9"
    } else if n == 10 {
        proof {
            reveal_strlit("a");
        }
        assert("a"@ =~= seq![hex_digit(10u8)]);
        "a"
    } else if n == 11 {
        proof {
            reveal_strlit("b");
        }
        assert("b"@ =~= seq![hex_digit(11u8)]);
        "b"
    } else if n == 12 {
        proof {
            reveal_strlit("c");
        }
        assert("c"@ =~= seq![hex_digit(12u8)]);
        "c"
    } else if n == 13 {
        proof {
            reveal_strlit("d");
        }
        assert("d"@ =~= seq![hex_digit(13u8)]);
        "d"
    } else if n == 14 {
        proof {
            reveal_strlit("e");
        }
        assert("e"@ =~= seq![hex_digit(14u8)]);
        "e"
    } else {
        proof {
            reveal_strlit("f");
        }
        assert("f"@ =~= seq![hex_digit(15u8)]);
        "f"
    }
}

/// The hexadecimal rendering of `b` as a string.
pub fn hex_string(b: &Vec<u8>) -> (r: String)
    ensures
        r@ == hex_of(b@),
{
    let mut s = String::new();
    let mut i: usize = 0;
    while i < b.len()
        invariant
            i <= b.len(),
            s@ == hex_upto(b@, i as int),
        decreases b.len() - i,
    {
        let hi: u8 = b[i] / 16;
        let lo: u8 = b[i] % 16;
        s.append(nibble_str(hi));
        s.append(nibble_str(lo));
        assert(s@ =~= hex_upto(b@, i as int + 1));
        i = i + 1;
    }
    s
}

} // verus!
