//! Byte-level searching and trimming that the template tokenizer and parser are built on.
use vstd::prelude::*;

verus! {

/// Whether `pat` occurs in `s` at index `i`.
pub open spec fn occurs_at(s: Seq<u8>, pat: Seq<u8>, i: int) -> bool {
    0 <= i && i + pat.len() <= s.len() && s.subrange(i, i + pat.len()) == pat
}

/// The first index `>= i` at which `pat` occurs in `s`.
pub open spec fn find_from(s: Seq<u8>, pat: Seq<u8>, i: int) -> Option<int>
    decreases s.len() - i,
{
    if i < 0 || i >= s.len() || i + pat.len() > s.len() {
        None
    } else if occurs_at(s, pat, i) {
        Some(i)
    } else {
        find_from(s, pat, i + 1)
    }
}

/// The first index at which `pat` occurs in `s`.
pub open spec fn find(s: Seq<u8>, pat: Seq<u8>) -> Option<int> {
    find_from(s, pat, 0)
}

/// The last index at which byte `b` occurs in `s`.
pub open spec fn rfind_byte(s: Seq<u8>, b: u8) -> Option<int>
    decreases s.len(),
{
    if s.len() == 0 {
        None
    } else if s.last() == b {
        Some(s.len() - 1)
    } else {
        rfind_byte(s.drop_last(), b)
    }
}

/// The start indices of the non-overlapping occurrences of `pat` in `s` found
/// when scanning from left to right, starting at index `i`.
pub open spec fn matches_from(s: Seq<u8>, pat: Seq<u8>, i: int) -> Seq<int>
    decreases s.len() - i,
{
    if pat.len() == 0 || i < 0 || i >= s.len() || i + pat.len() > s.len() {
        seq![]
    } else if occurs_at(s, pat, i) {
        seq![i] + matches_from(s, pat, i + pat.len())
    } else {
        matches_from(s, pat, i + 1)
    }
}

/// Whether `s` starts with `pat`.
pub open spec fn starts_with(s: Seq<u8>, pat: Seq<u8>) -> bool {
    occurs_at(s, pat, 0)
}

/// Whether `s` ends with `pat`.
pub open spec fn ends_with(s: Seq<u8>, pat: Seq<u8>) -> bool {
    pat.len() <= s.len() && s.subrange(s.len() - pat.len(), s.len() as int) == pat
}

/// The number of bytes of the UTF-8 encoded white space character that starts
/// at index `i` of `s`, or 0 if none starts there (`char::is_whitespace`).
pub open spec fn ws_len_at(s: Seq<u8>, i: int) -> int {
    if 0 <= i < s.len() && (s[i] == 0x20 || (0x09 <= s[i] <= 0x0d)) {
        1
    } else if 0 <= i && i + 2 <= s.len() && s[i] == 0xc2 && (s[i + 1] == 0x85 || s[i + 1] == 0xa0) {
        2
    } else if 0 <= i && i + 3 <= s.len() && (
        (s[i] == 0xe1 && s[i + 1] == 0x9a && s[i + 2] == 0x80)
        || (s[i] == 0xe2 && s[i + 1] == 0x80 && (s[i + 2] <= 0x8a || s[i + 2] == 0xa8 || s[i + 2] == 0xa9 || s[i + 2] == 0xaf) && s[i + 2] >= 0x80)
        || (s[i] == 0xe2 && s[i + 1] == 0x81 && s[i + 2] == 0x9f)
        || (s[i] == 0xe3 && s[i + 1] == 0x80 && s[i + 2] == 0x80)
    ) {
        3
    } else {
        0
    }
}

/// The number of bytes of the UTF-8 encoded white space character that ends
/// just before index `j` of `s`, or 0 if none ends there.
pub open spec fn ws_len_before(s: Seq<u8>, j: int) -> int {
    if 1 <= j <= s.len() && ws_len_at(s, j - 1) == 1 {
        1
    } else if 2 <= j <= s.len() && ws_len_at(s, j - 2) == 2 {
        2
    } else if 3 <= j <= s.len() && ws_len_at(s, j - 3) == 3 {
        3
    } else {
        0
    }
}

/// The index of the first byte at or after `i` that does not start a white space character.
pub open spec fn skip_ws(s: Seq<u8>, i: int) -> int
    decreases s.len() - i,
{
    if i < 0 || i >= s.len() || ws_len_at(s, i) == 0 {
        i
    } else {
        skip_ws(s, i + ws_len_at(s, i))
    }
}

/// The index just after the last character at or before `j` that is not white space
/// (`j` itself when no white space character ends at `j`).
pub open spec fn skip_ws_back(s: Seq<u8>, j: int) -> int
    decreases j,
{
    if j <= 0 || j > s.len() || ws_len_before(s, j) == 0 {
        j
    } else {
        skip_ws_back(s, j - ws_len_before(s, j))
    }
}

/// The number of leading white space bytes of `s` (what `str::trim_start` removes).
pub open spec fn trim_start_len(s: Seq<u8>) -> int {
    skip_ws(s, 0)
}

/// `s` without leading white space.
pub open spec fn trim_start(s: Seq<u8>) -> Seq<u8> {
    s.subrange(skip_ws(s, 0), s.len() as int)
}

/// `s` without trailing white space.
pub open spec fn trim_end(s: Seq<u8>) -> Seq<u8> {
    s.subrange(0, skip_ws_back(s, s.len() as int))
}

/// `s` without leading and trailing white space.
pub open spec fn trim(s: Seq<u8>) -> Seq<u8> {
    trim_end(trim_start(s))
}

/// Whether `s` consists of white space only.
pub open spec fn is_blank(s: Seq<u8>) -> bool {
    skip_ws(s, 0) == s.len()
}

pub proof fn lemma_skip_ws_bounds(s: Seq<u8>, i: int)
    requires
        0 <= i <= s.len(),
    ensures
        i <= skip_ws(s, i) <= s.len(),
    decreases s.len() - i,
{
    if i < s.len() && ws_len_at(s, i) != 0 {
        lemma_skip_ws_bounds(s, i + ws_len_at(s, i));
    }
}

pub proof fn lemma_skip_ws_back_bounds(s: Seq<u8>, j: int)
    requires
        0 <= j <= s.len(),
    ensures
        0 <= skip_ws_back(s, j) <= j,
    decreases j,
{
    if j > 0 && ws_len_before(s, j) != 0 {
        lemma_skip_ws_back_bounds(s, j - ws_len_before(s, j));
    }
}

pub proof fn lemma_find_from_bounds(s: Seq<u8>, pat: Seq<u8>, i: int)
    requires
        0 <= i,
        pat.len() > 0,
    ensures
        find_from(s, pat, i) matches Some(k) ==> i <= k && k + pat.len() <= s.len() && occurs_at(s, pat, k),
        find_from(s, pat, i) matches Some(k) ==> forall|m: int| i <= m < k ==> !occurs_at(s, pat, m),
        find_from(s, pat, i) is None ==> forall|m: int| i <= m ==> !occurs_at(s, pat, m),
    decreases s.len() - i,
{
    if i >= s.len() || i + pat.len() > s.len() {
    } else if occurs_at(s, pat, i) {
    } else {
        lemma_find_from_bounds(s, pat, i + 1);
    }
}

/// Unfolds the left-to-right scan of non-overlapping matches through `find_from`.
pub proof fn lemma_matches_from_find(s: Seq<u8>, pat: Seq<u8>, i: int)
    requires
        0 <= i,
        pat.len() > 0,
    ensures
        matches_from(s, pat, i) == (match find_from(s, pat, i) {
            Some(k) => seq![k] + matches_from(s, pat, k + pat.len()),
            None => seq![],
        }),
    decreases s.len() - i,
{
    if i >= s.len() || i + pat.len() > s.len() {
    } else if occurs_at(s, pat, i) {
    } else {
        lemma_matches_from_find(s, pat, i + 1);
    }
}

/// Whether the bytes of `a` and `b` are equal.
pub fn bytes_eq(a: &[u8], b: &[u8]) -> (r: bool)
    ensures
        r == (a@ == b@),
{
    if a.len() != b.len() {
        return false;
    }
    let mut i: usize = 0;
    while i < a.len()
        invariant
            a.len() == b.len(),
            0 <= i <= a.len(),
            forall|k: int| 0 <= k < i ==> a@[k] == b@[k],
        decreases a.len() - i,
    {
        if a[i] != b[i] {
            return false;
        }
        i = i + 1;
    }
    assert(a@ =~= b@);
    true
}

/// Whether `pat` occurs in `s` at index `i`.
pub fn occurs(s: &[u8], i: usize, pat: &[u8]) -> (r: bool)
    ensures
        r == occurs_at(s@, pat@, i as int),
{
    if i > s.len() || s.len() - i < pat.len() {
        return false;
    }
    let mut k: usize = 0;
    while k < pat.len()
        invariant
            i + pat.len() <= s.len(),
            0 <= k <= pat.len(),
            forall|m: int| 0 <= m < k ==> s@[i + m] == pat@[m],
        decreases pat.len() - k,
    {
        if s[i + k] != pat[k] {
            assert(s@.subrange(i as int, i + pat.len())[k as int] != pat@[k as int]);
            return false;
        }
        k = k + 1;
    }
    assert(s@.subrange(i as int, i + pat.len()) =~= pat@);
    true
}

/// The first index `>= start` at which `pat` occurs in `s`.
pub fn find_bytes(s: &[u8], start: usize, pat: &[u8]) -> (r: Option<usize>)
    ensures
        match r {
            Some(k) => find_from(s@, pat@, start as int) == Some(k as int),
            None => find_from(s@, pat@, start as int) is None,
        },
{
    let mut i = start;
    while i < s.len() && s.len() - i >= pat.len()
        invariant
            start <= i,
            find_from(s@, pat@, start as int) == find_from(s@, pat@, i as int),
        decreases s.len() - i,
    {
        if occurs(s, i, pat) {
            return Some(i);
        }
        i = i + 1;
    }
    None
}

/// The last index at which byte `b` occurs in `s`.
pub fn rfind_byte_exec(s: &[u8], b: u8) -> (r: Option<usize>)
    ensures
        match r {
            Some(k) => rfind_byte(s@, b) == Some(k as int),
            None => rfind_byte(s@, b) is None,
        },
{
    let mut j = s.len();
    assert(s@.subrange(0, j as int) =~= s@);
    while j > 0
        invariant
            j <= s.len(),
            rfind_byte(s@, b) == rfind_byte(s@.subrange(0, j as int), b),
        decreases j,
    {
        assert(s@.subrange(0, j as int).drop_last() =~= s@.subrange(0, j - 1));
        if s[j - 1] == b {
            return Some(j - 1);
        }
        j = j - 1;
    }
    None
}

/// Whether `s` starts with `pat`.
pub fn starts_with_bytes(s: &[u8], pat: &[u8]) -> (r: bool)
    ensures
        r == starts_with(s@, pat@),
{
    occurs(s, 0, pat)
}

/// Whether `s` ends with `pat`.
pub fn ends_with_bytes(s: &[u8], pat: &[u8]) -> (r: bool)
    ensures
        r == ends_with(s@, pat@),
{
    if pat.len() > s.len() {
        return false;
    }
    let r = occurs(s, s.len() - pat.len(), pat);
    r
}

/// The length of the white space character starting at `i` (0 if none).
pub fn ws_len_at_exec(s: &[u8], i: usize) -> (r: usize)
    ensures
        r == ws_len_at(s@, i as int),
{
    if i < s.len() && (s[i] == 0x20 || (0x09 <= s[i] && s[i] <= 0x0d)) {
        1
    } else if i < s.len() && s.len() - i >= 2 && s[i] == 0xc2 && (s[i + 1] == 0x85 || s[i + 1] == 0xa0) {
        2
    } else if i < s.len() && s.len() - i >= 3 && (
        (s[i] == 0xe1 && s[i + 1] == 0x9a && s[i + 2] == 0x80)
        || (s[i] == 0xe2 && s[i + 1] == 0x80 && (s[i + 2] <= 0x8a || s[i + 2] == 0xa8 || s[i + 2] == 0xa9 || s[i + 2] == 0xaf) && s[i + 2] >= 0x80)
        || (s[i] == 0xe2 && s[i + 1] == 0x81 && s[i + 2] == 0x9f)
        || (s[i] == 0xe3 && s[i + 1] == 0x80 && s[i + 2] == 0x80)
    ) {
        3
    } else {
        0
    }
}

/// The first index at or after `i` that does not start a white space character.
pub fn skip_ws_exec(s: &[u8], i: usize) -> (r: usize)
    requires
        i <= s.len(),
    ensures
        r == skip_ws(s@, i as int),
        i <= r <= s.len(),
{
    let mut k = i;
    proof { lemma_skip_ws_bounds(s@, i as int); }
    while k < s.len()
        invariant
            i <= k <= s.len(),
            skip_ws(s@, i as int) == skip_ws(s@, k as int),
        decreases s.len() - k,
    {
        let w = ws_len_at_exec(s, k);
        if w == 0 {
            return k;
        }
        k = k + w;
    }
    k
}

/// The index just after the last non white space character before `j`.
pub fn skip_ws_back_exec(s: &[u8], j: usize) -> (r: usize)
    requires
        j <= s.len(),
    ensures
        r == skip_ws_back(s@, j as int),
        r <= j,
{
    let mut k = j;
    proof { lemma_skip_ws_back_bounds(s@, j as int); }
    while k > 0
        invariant
            0 <= k <= j,
            skip_ws_back(s@, j as int) == skip_ws_back(s@, k as int),
        decreases k,
    {
        let w: usize = if ws_len_at_exec(s, k - 1) == 1 {
            1
        } else if k >= 2 && ws_len_at_exec(s, k - 2) == 2 {
            2
        } else if k >= 3 && ws_len_at_exec(s, k - 3) == 3 {
            3
        } else {
            0
        };
        assert(w == ws_len_before(s@, k as int));
        if w == 0 {
            return k;
        }
        k = k - w;
    }
    k
}

/// Whether `s` consists of white space only.
pub fn is_blank_exec(s: &[u8]) -> (r: bool)
    ensures
        r == is_blank(s@),
{
    skip_ws_exec(s, 0) == s.len()
}

/// Copies `s[lo..hi]` into a new vector.
pub fn slice_to_vec(s: &[u8], lo: usize, hi: usize) -> (r: Vec<u8>)
    requires
        lo <= hi <= s.len(),
    ensures
        r@ == s@.subrange(lo as int, hi as int),
{
    let mut out: Vec<u8> = Vec::new();
    let mut i = lo;
    while i < hi
        invariant
            lo <= i <= hi <= s.len(),
            out@ == s@.subrange(lo as int, i as int),
        decreases hi - i,
    {
        out.push(s[i]);
        assert(out@ =~= s@.subrange(lo as int, i + 1));
        i = i + 1;
    }
    out
}

/// Appends `s[lo..hi]` to `out`.
pub fn push_slice(out: &mut Vec<u8>, s: &[u8], lo: usize, hi: usize)
    requires
        lo <= hi <= s.len(),
    ensures
        final(out)@ == old(out)@ + s@.subrange(lo as int, hi as int),
{
    let mut i = lo;
    while i < hi
        invariant
            lo <= i <= hi <= s.len(),
            out@ == old(out)@ + s@.subrange(lo as int, i as int),
        decreases hi - i,
    {
        out.push(s[i]);
        assert(out@ =~= old(out)@ + s@.subrange(lo as int, i + 1));
        i = i + 1;
    }
}

/// Whether `b` may appear in a variable name (`a-z`, `A-Z`, `0-9` or `_`).
pub open spec fn spec_is_var_name_symbol(b: u8) -> bool {
    (0x61 <= b <= 0x7a) || (0x41 <= b <= 0x5a) || (0x30 <= b <= 0x39) || b == 0x5f
}

/// Checks if `b` is considered to be a valid byte for a variable name.
pub fn is_var_name_symbol(b: u8) -> (r: bool)
    ensures
        r == spec_is_var_name_symbol(b),
{
    (0x61 <= b && b <= 0x7a) || (0x41 <= b && b <= 0x5a) || (0x30 <= b && b <= 0x39) || b == 0x5f
}

} // verus!
