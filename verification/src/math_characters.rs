//! The named constants `π`, `e` and `pi`, and where a text names one.

use vstd::prelude::*;
use crate::search::{first_index, lemma_first_index_is};
use crate::EquationString;

verus! {

/// A named constant.
#[derive(Debug, Clone, Copy, PartialEq, Eq, Structural)]
pub enum MathConstant {
    /// The ratio of a circle's circumference to its diameter.
    Pi,
    /// The base of the natural logarithm.
    E,
}

/// `c` is a character of a constant's name: `e`, `π`, `p` or `i`.
pub open spec fn is_constant_char(c: char) -> bool {
    c == 'e' || c == 'π' || c == 'p' || c == 'i'
}

/// Whether `c` is a character of a constant's name.
pub fn is_math_character(c: char) -> (b: bool)
    ensures
        b == is_constant_char(c),
{
    c == 'e' || c == 'π' || c == 'p' || c == 'i'
}

/// The constant that a name denotes: `π` and `pi` denote `Pi`, `e` denotes
/// `E`, and no other text is a name.
pub open spec fn constant_of(name: Seq<char>) -> Option<MathConstant> {
    if name == seq!['π'] || name == seq!['p', 'i'] {
        Some(MathConstant::Pi)
    } else if name == seq!['e'] {
        Some(MathConstant::E)
    } else {
        None
    }
}

/// The constant that `name` denotes, if it is the name of one.
pub fn match_math_constant(name: &Vec<char>) -> (r: Option<MathConstant>)
    ensures
        r == constant_of(name@),
{
    if name.len() == 1 && name[0] == 'π' {
        assert(name@ == seq!['π']);
        Some(MathConstant::Pi)
    } else if name.len() == 2 && name[0] == 'p' && name[1] == 'i' {
        assert(name@ == seq!['p', 'i']);
        Some(MathConstant::Pi)
    } else if name.len() == 1 && name[0] == 'e' {
        assert(name@ == seq!['e']);
        Some(MathConstant::E)
    } else {
        assert(name@ != seq!['π']) by {
            if name@ == seq!['π'] {
                assert(name@.len() == 1 && name@[0] == 'π');
            }
        }
        assert(name@ != seq!['p', 'i']) by {
            if name@ == seq!['p', 'i'] {
                assert(name@.len() == 2 && name@[0] == 'p' && name@[1] == 'i');
            }
        }
        assert(name@ != seq!['e']) by {
            if name@ == seq!['e'] {
                assert(name@.len() == 1 && name@[0] == 'e');
            }
        }
        None
    }
}

/// The indices at which `s` holds `c`.
pub open spec fn holds_at(s: Seq<char>, c: char) -> spec_fn(int) -> bool {
    |i: int| s[i] == c
}

/// The indices at which `s` holds `p` with `i` directly behind it.
pub open spec fn holds_pi_at(s: Seq<char>) -> spec_fn(int) -> bool {
    |i: int| s[i] == 'p' && i + 1 < s.len() && s[i + 1] == 'i'
}

/// Index of the first `c` in `s`, or `s.len()`.
pub open spec fn first_of(s: Seq<char>, c: char) -> int {
    first_index(0, s.len() as int, holds_at(s, c))
}

/// Index of the first `pi` in `s`, or `s.len()`.
pub open spec fn first_pi_word(s: Seq<char>) -> int {
    first_index(0, s.len() as int, holds_pi_at(s))
}

/// Where `s` names a constant, and by which name: the first `π` if there is
/// one; else the first `e`; else the first `pi`.
pub open spec fn constant_position(s: Seq<char>) -> Option<(int, Seq<char>)> {
    if first_of(s, 'π') < s.len() {
        Some((first_of(s, 'π'), seq!['π']))
    } else if first_of(s, 'e') < s.len() {
        Some((first_of(s, 'e'), seq!['e']))
    } else if first_pi_word(s) < s.len() {
        Some((first_pi_word(s), seq!['p', 'i']))
    } else {
        None
    }
}

/// Index of the first `c` in `val`; `val.len()` if there is none.
pub fn position_of(val: &Vec<char>, c: char) -> (k: usize)
    ensures
        k == first_of(val@, c),
        k <= val@.len(),
        k < val@.len() ==> val@[k as int] == c,
{
    let n: usize = val.len();
    let mut i: usize = 0;
    while i < n
        invariant
            n == val@.len(),
            i <= n,
            forall|j: int| 0 <= j < i ==> !#[trigger] holds_at(val@, c)(j),
        decreases n - i,
    {
        if val[i] == c {
            proof {
                lemma_first_index_is(0, n as int, holds_at(val@, c), i as int);
            }
            return i;
        }
        i = i + 1;
    }
    proof {
        lemma_first_index_is(0, n as int, holds_at(val@, c), n as int);
    }
    n
}

/// Index of the first `pi` in `val`; `val.len()` if there is none.
pub fn position_of_pi_word(val: &Vec<char>) -> (k: usize)
    ensures
        k == first_pi_word(val@),
        k <= val@.len(),
        k < val@.len() ==> k + 1 < val@.len() && val@[k as int] == 'p' && val@[k + 1] == 'i',
{
    let n: usize = val.len();
    let mut i: usize = 0;
    while i < n
        invariant
            n == val@.len(),
            i <= n,
            forall|j: int| 0 <= j < i ==> !#[trigger] holds_pi_at(val@)(j),
        decreases n - i,
    {
        if val[i] == 'p' && i + 1 < n && val[i + 1] == 'i' {
            proof {
                lemma_first_index_is(0, n as int, holds_pi_at(val@), i as int);
            }
            return i;
        }
        i = i + 1;
    }
    proof {
        lemma_first_index_is(0, n as int, holds_pi_at(val@), n as int);
    }
    n
}

/// Where `val` names a constant, and by which name. `π` is looked for first,
/// then `e`, then `pi`; of each, the first occurrence counts.
pub fn math_character_position(val: EquationString) -> (r: Option<(usize, EquationString)>)
    ensures
        match r {
            Some((index, name)) => constant_position(val@) == Some((index as int, name@))
                && index + name@.len() <= val@.len()
                && val@.subrange(index as int, index + name@.len()) == name@
                && constant_of(name@) is Some,
            None => constant_position(val@) is None,
        },
{
    let has_pi: usize = position_of(&val, 'π');
    if has_pi < val.len() {
        let name: Vec<char> = vec!['π'];
        assert(name@ == seq!['π']);
        return Some((has_pi, name));
    }
    let has_e: usize = position_of(&val, 'e');
    if has_e < val.len() {
        let name: Vec<char> = vec!['e'];
        assert(name@ == seq!['e']);
        assert(seq!['e'] != seq!['π']) by {
            assert(seq!['e'][0] != seq!['π'][0]);
        }
        assert(seq!['e'] != seq!['p', 'i']) by {
            assert(seq!['e'].len() != seq!['p', 'i'].len());
        }
        return Some((has_e, name));
    }
    let has_pi_word: usize = position_of_pi_word(&val);
    if has_pi_word < val.len() {
        let name: Vec<char> = vec!['p', 'i'];
        assert(name@ == seq!['p', 'i']);
        return Some((has_pi_word, name));
    }
    None
}

} // verus!
