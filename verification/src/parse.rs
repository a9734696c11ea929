//! Parsing the blocks of a template source into a [template](`crate::template::Template`).
use vstd::prelude::*;

use crate::block::{IfOp, Var, VarEnv, VarEnvSet};
use crate::scan::{
    find, find_bytes, find_from, lemma_find_from_bounds, lemma_skip_ws_back_bounds, lemma_skip_ws_bounds,
    skip_ws, skip_ws_back, skip_ws_back_exec, skip_ws_exec, spec_is_var_name_symbol, is_var_name_symbol,
};
use crate::span::{ByteSpan, BytePos};
use crate::text::{decimal, push_char, push_decimal};

verus! {

/// The environment a prefix byte of a variable names: `$`, `#` or `&`.
pub open spec fn env_of_byte(b: u8) -> Option<VarEnv> {
    if b == 0x24 {
        Some(VarEnv::Environment)
    } else if b == 0x23 {
        Some(VarEnv::Profile)
    } else if b == 0x26 {
        Some(VarEnv::Dotfile)
    } else {
        None
    }
}

/// The number of leading environment prefix bytes of `t`, at most three.
pub open spec fn env_prefix_len(t: Seq<u8>) -> int {
    if t.len() > 0 && env_of_byte(t[0]) is Some {
        if t.len() > 1 && env_of_byte(t[1]) is Some {
            if t.len() > 2 && env_of_byte(t[2]) is Some {
                3
            } else {
                2
            }
        } else {
            1
        }
    } else {
        0
    }
}

/// Whether two of the first `k` bytes of `t` are equal.
pub open spec fn has_duplicate(t: Seq<u8>, k: int) -> bool {
    exists|i: int, j: int| 0 <= i < j < k && t[i] == t[j]
}

/// The environment slots named by the first `k` bytes of `t`.
pub open spec fn prefix_slot(t: Seq<u8>, k: int, j: int) -> Option<VarEnv> {
    if j < k {
        env_of_byte(t[j])
    } else {
        None
    }
}

/// The first byte of `s` that may not appear in a variable name.
pub open spec fn first_invalid_byte(s: Seq<u8>) -> Option<u8>
    decreases s.len(),
{
    if s.len() == 0 {
        None
    } else if !spec_is_var_name_symbol(s[0]) {
        Some(s[0])
    } else {
        first_invalid_byte(s.drop_first())
    }
}

/// Why a variable block could not be parsed.
#[derive(Debug, Clone, Copy, PartialEq, Eq, Structural)]
pub enum VarError {
    /// An environment prefix was given twice.
    DuplicateEnv {
        /// Position of the prefixes.
        offset: usize,
    },
    /// The variable has no name.
    EmptyName {
        /// Position where the name was expected.
        offset: usize,
    },
    /// The name holds a byte that may not appear in a variable name.
    InvalidSymbol {
        /// The first such byte.
        byte: u8,
    },
}

/// The character shown for an invalid byte: itself if it is ASCII, `\0` otherwise.
pub open spec fn shown_char(b: u8) -> char {
    if b < 0x80 {
        b as char
    } else {
        '\0'
    }
}

impl VarError {
    /// The text describing the error.
    pub open spec fn spec_message(self) -> Seq<char> {
        match self {
            VarError::DuplicateEnv { offset } => "Specified duplicate variable environments at "@ + decimal(offset as nat),
            VarError::EmptyName { offset } => "Empty variable name at "@ + decimal(offset as nat),
            VarError::InvalidSymbol { byte } => "Found invalid symbol in variable name: (b`"@ + decimal(byte as nat)
                + "`; c`"@ + seq![shown_char(byte)] + "`)"@,
        }
    }

    /// Returns the text describing the error.
    pub fn message(&self) -> (r: String)
        ensures
            r@ == self.spec_message(),
    {
        match self {
            VarError::DuplicateEnv { offset } => {
                let mut s = String::from_str("Specified duplicate variable environments at ");
                push_decimal(&mut s, *offset);
                s
            },
            VarError::EmptyName { offset } => {
                let mut s = String::from_str("Empty variable name at ");
                push_decimal(&mut s, *offset);
                s
            },
            VarError::InvalidSymbol { byte } => {
                let mut s = String::from_str("Found invalid symbol in variable name: (b`");
                push_decimal(&mut s, *byte as usize);
                s.append("`; c`");
                let c = if *byte < 0x80 { *byte as char } else { '\0' };
                push_char(&mut s, c);
                s.append("`)");
                s
            },
        }
    }
}

/// The result of parsing the inside `inner` of a variable block (without `{{` and
/// `}}`) that starts at position `offset`.
pub open spec fn spec_parse_var(inner: Seq<u8>, offset: int) -> Result<Var, VarError> {
    let a = skip_ws(inner, 0);
    let t0 = inner.subrange(a, inner.len() as int);
    let t = t0.subrange(0, skip_ws_back(t0, t0.len() as int));
    let off1 = offset + a;
    let k = env_prefix_len(t);
    if k > 0 && has_duplicate(t, k) {
        Err(VarError::DuplicateEnv { offset: off1 as usize })
    } else {
        let envs = if k > 0 {
            VarEnvSet([prefix_slot(t, k, 0), prefix_slot(t, k, 1), prefix_slot(t, k, 2)])
        } else {
            VarEnvSet::spec_default()
        };
        let name = t.subrange(k, t.len() as int);
        let off2 = off1 + k;
        if name.len() == 0 {
            Err(VarError::EmptyName { offset: off2 as usize })
        } else {
            match first_invalid_byte(name) {
                Some(b) => Err(VarError::InvalidSymbol { byte: b }),
                None => Ok(Var { envs, name: ByteSpan::spec_of(off2, off2 + name.len()) }),
            }
        }
    }
}

/// Parses `inner`, the inside of a variable block without `{{` and `}}`, that
/// starts at position `offset` of the template.
#[verifier::loop_isolation(false)]
pub fn parse_var(inner: &[u8], offset: usize) -> (r: Result<Var, VarError>)
    requires
        offset + inner@.len() <= u32::MAX,
    ensures
        r == spec_parse_var(inner@, offset as int),
{
    let a = skip_ws_exec(inner, 0);
    let t0 = &inner[a..inner.len()];
    let e = skip_ws_back_exec(t0, t0.len());
    let t = &t0[0..e];
    assert(t0@ == inner@.subrange(a as int, inner@.len() as int));
    assert(t@ == t0@.subrange(0, e as int));
    let off1 = offset + a;
    let mut k: usize = 0;
    while k < 3 && k < t.len() && (t[k] == 0x24 || t[k] == 0x23 || t[k] == 0x26)
        invariant
            0 <= k <= 3,
            k <= t@.len(),
            forall|j: int| 0 <= j < k ==> env_of_byte(#[trigger] t@[j]) is Some,
        decreases 3 - k,
    {
        k = k + 1;
    }
    assert(k == env_prefix_len(t@));
    if k > 0 {
        let mut i: usize = 0;
        while i < k
            invariant
                k <= 3,
                k <= t@.len(),
                0 <= i <= k,
                forall|x: int, y: int| 0 <= x < y < k && x < i ==> t@[x] != t@[y],
            decreases k - i,
        {
            let mut j: usize = i + 1;
            while j < k
                invariant
                    k <= 3,
                    k <= t@.len(),
                    i < k,
                    i + 1 <= j <= k,
                    forall|x: int, y: int| 0 <= x < y < k && x < i ==> t@[x] != t@[y],
                    forall|y: int| i < y < j ==> t@[i as int] != t@[y],
                decreases k - j,
            {
                if t[i] == t[j] {
                    assert(has_duplicate(t@, k as int));
                    assert(t@ == t0@.subrange(0, skip_ws_back(t0@, t0@.len() as int)));
                    assert(t0@ == inner@.subrange(skip_ws(inner@, 0), inner@.len() as int));
                    return Err(VarError::DuplicateEnv { offset: off1 });
                }
                j = j + 1;
            }
            i = i + 1;
        }
    }
    let envs = if k > 0 {
        let s0 = byte_env(t[0]);
        let s1 = if k > 1 { byte_env(t[1]) } else { None };
        let s2 = if k > 2 { byte_env(t[2]) } else { None };
        VarEnvSet([s0, s1, s2])
    } else {
        VarEnvSet::default_set()
    };
    let name = &t[k..t.len()];
    assert(name@ == t@.subrange(k as int, t@.len() as int));
    let off2 = off1 + k;
    if name.len() == 0 {
        return Err(VarError::EmptyName { offset: off2 });
    }
    let mut n: usize = 0;
    assert(name@.subrange(0, name@.len() as int) =~= name@);
    while n < name.len()
        invariant
            0 <= n <= name@.len(),
            first_invalid_byte(name@) == first_invalid_byte(name@.subrange(n as int, name@.len() as int)),
        decreases name.len() - n,
    {
        assert(name@.subrange(n as int, name@.len() as int).drop_first() =~= name@.subrange(n + 1, name@.len() as int));
        if !is_var_name_symbol(name[n]) {
            assert(first_invalid_byte(name@) == Some(name@[n as int]));
            return Err(VarError::InvalidSymbol { byte: name[n] });
        }
        n = n + 1;
    }
    assert(name@.subrange(n as int, name@.len() as int).len() == 0);
    Ok(Var { envs, name: ByteSpan { low: BytePos(off2 as u32), high: BytePos((off2 + name.len()) as u32) } })
}

/// The environment named by prefix byte `b`.
fn byte_env(b: u8) -> (r: Option<VarEnv>)
    ensures
        r == env_of_byte(b),
{
    if b == 0x24 {
        Some(VarEnv::Environment)
    } else if b == 0x23 {
        Some(VarEnv::Profile)
    } else if b == 0x26 {
        Some(VarEnv::Dotfile)
    } else {
        None
    }
}

/// `==`
pub open spec fn pat_eq() -> Seq<u8> {
    seq![0x3du8, 0x3d]
}

/// `!=`
pub open spec fn pat_neq() -> Seq<u8> {
    seq![0x21u8, 0x3d]
}

/// `"`
pub open spec fn pat_quote() -> Seq<u8> {
    seq![0x22u8]
}

/// The comparison operator of an if expression: the first of `==` and `!=` in `inner`.
pub open spec fn spec_parse_ifop(inner: Seq<u8>) -> Option<IfOp> {
    match (find(inner, pat_eq()), find(inner, pat_neq())) {
        (Some(e), Some(n)) => if e < n { Some(IfOp::Eq) } else { Some(IfOp::NotEq) },
        (Some(_), None) => Some(IfOp::Eq),
        (None, Some(_)) => Some(IfOp::NotEq),
        (None, None) => None,
    }
}

/// Finds the comparison operator of an if expression.
pub fn parse_ifop(inner: &[u8]) -> (r: Option<IfOp>)
    ensures
        r == spec_parse_ifop(inner@),
{
    let eq: [u8; 2] = [0x3d, 0x3d];
    let neq: [u8; 2] = [0x21, 0x3d];
    assert(eq@ =~= pat_eq());
    assert(neq@ =~= pat_neq());
    match (find_bytes(inner, 0, &eq), find_bytes(inner, 0, &neq)) {
        (Some(e), Some(n)) => if e < n { Some(IfOp::Eq) } else { Some(IfOp::NotEq) },
        (Some(_), None) => Some(IfOp::Eq),
        (None, Some(_)) => Some(IfOp::NotEq),
        (None, None) => None,
    }
}

/// The span between the first two `"` of `inner` (exclusive), where `inner` starts
/// at position `offset`.
pub open spec fn spec_parse_other(inner: Seq<u8>, offset: int) -> Option<ByteSpan> {
    match find(inner, pat_quote()) {
        Some(low) => match find_from(inner, pat_quote(), low + 1) {
            Some(high) => Some(ByteSpan::spec_of(offset + low + 1, offset + high)),
            None => None,
        },
        None => None,
    }
}

/// Parses the literal on the right hand side of an if comparison.
pub fn parse_other(inner: &[u8], offset: usize) -> (r: Option<ByteSpan>)
    requires
        offset + inner@.len() <= u32::MAX,
    ensures
        r == spec_parse_other(inner@, offset as int),
{
    let q: [u8; 1] = [0x22];
    assert(q@ =~= pat_quote());
    match find_bytes(inner, 0, &q) {
        Some(low) => {
            proof { lemma_find_from_bounds(inner@, pat_quote(), 0); }
            match find_bytes(inner, low + 1, &q) {
                Some(high) => {
                    proof { lemma_find_from_bounds(inner@, pat_quote(), low + 1); }
                    Some(ByteSpan { low: BytePos((offset + low + 1) as u32), high: BytePos((offset + high) as u32) })
                },
                None => None,
            }
        },
        None => None,
    }
}

} // verus!
