//! The mesh text format: a line-oriented format holding positions (`v`),
//! texture coordinates (`vt`), normals (`vn`) and triangular faces (`f`).
//!
//! Numbers are plain decimals with an optional sign and an optional
//! fractional part; they are parsed into fixed point at [`crate::la::SCALE`],
//! keeping six fractional digits and truncating the rest.  A face group is
//! three slash-separated 1-based indices (position/texcoord/normal).  Lines
//! with any other prefix are skipped; a malformed or missing number, or a
//! whole part beyond [`MAX_WHOLE`], is a hard parse failure.

use vstd::prelude::*;

use crate::la::Matrix;
use crate::la::SCALE;

verus! {

/// The largest whole part a decimal literal may carry: anything larger
/// could not be scaled into a 64-bit fixed-point element.
pub const MAX_WHOLE: u64 = 9_000_000_000_000;

/// Error of the mesh parser: a malformed or missing number where one is
/// expected.
#[derive(Clone, Copy, Debug, PartialEq, Eq, Structural)]
pub enum ObjError {
    Malformed,
}

/// One corner of a face: 1-based indices of its position, texture
/// coordinate and normal.
#[derive(Clone, Copy, Debug, PartialEq, Eq, Structural)]
pub struct Vertex {
    pub vi: usize,
    pub vti: usize,
    pub vni: usize,
}

/// A triangular face: exactly three corners.
#[derive(Debug)]
pub struct Triangle {
    pub vs: Vec<Vertex>,
}

/// Is `b` an ASCII whitespace byte?
pub open spec fn is_space(b: u8) -> bool {
    b == 32 || 9 <= b <= 13
}

/// Is `b` an ASCII decimal digit?
pub open spec fn is_digit(b: u8) -> bool {
    48 <= b <= 57
}

/// The first index at or after `i` holding a non-space byte, or the length.
pub open spec fn skip_spaces(s: Seq<u8>, i: int) -> int
    decreases s.len() - i,
{
    if i < 0 || i >= s.len() || !is_space(s[i]) {
        i
    } else {
        skip_spaces(s, i + 1)
    }
}

/// The first index at or after `i` holding a space byte, or the length.
pub open spec fn tok_end(s: Seq<u8>, i: int) -> int
    decreases s.len() - i,
{
    if i < 0 || i >= s.len() || is_space(s[i]) {
        i
    } else {
        tok_end(s, i + 1)
    }
}

/// The first index at or after `i` holding the byte `b`, or the length.
pub open spec fn find_byte(s: Seq<u8>, i: int, b: u8) -> int
    decreases s.len() - i,
{
    if i < 0 || i >= s.len() || s[i] == b {
        i
    } else {
        find_byte(s, i + 1, b)
    }
}

/// Are the bytes in `[i, j)` all decimal digits?
pub open spec fn all_digits(s: Seq<u8>, i: int, j: int) -> bool {
    forall|k: int| i <= k < j ==> is_digit(#[trigger] s[k])
}

/// The value of the decimal digits in `[i, j)`.
pub open spec fn digits_val(s: Seq<u8>, i: int, j: int) -> int
    decreases j - i,
{
    if j <= i {
        0
    } else {
        digits_val(s, i, j - 1) * 10 + (s[j - 1] - 48)
    }
}

/// Ten to the `e`-th power.
pub open spec fn pow10(e: int) -> int
    decreases e,
{
    if e <= 0 {
        1
    } else {
        10 * pow10(e - 1)
    }
}

/// A longer digit run is worth at least as much as any of its prefixes.
proof fn lemma_digits_val_grows(s: Seq<u8>, i: int, j: int, k: int)
    requires
        i <= j <= k,
        all_digits(s, i, k),
    ensures
        digits_val(s, i, k) >= digits_val(s, i, j) >= 0,
    decreases k - j,
{
    lemma_digits_val_nonneg(s, i, j);
    if j < k {
        lemma_digits_val_grows(s, i, j, k - 1);
        lemma_digits_val_nonneg(s, i, k - 1);
        assert(digits_val(s, i, k) == digits_val(s, i, k - 1) * 10 + (s[k - 1] - 48));
        assert(digits_val(s, i, k - 1) * 10 >= digits_val(s, i, k - 1)) by (nonlinear_arith)
            requires
                digits_val(s, i, k - 1) >= 0,
        ;
    }
}

/// The value of a digit run is never negative.
proof fn lemma_digits_val_nonneg(s: Seq<u8>, i: int, j: int)
    requires
        all_digits(s, i, j),
    ensures
        digits_val(s, i, j) >= 0,
    decreases j - i,
{
    if j > i {
        lemma_digits_val_nonneg(s, i, j - 1);
        assert(digits_val(s, i, j - 1) * 10 >= 0) by (nonlinear_arith)
            requires
                digits_val(s, i, j - 1) >= 0,
        ;
    }
}

/// The fixed-point value of the decimal literal `t`: an optional sign, then
/// digits, then optionally a dot and more digits, at least one digit in all;
/// the first six fractional digits are kept.  `None` on any other shape,
/// and on a whole part beyond [`MAX_WHOLE`].
pub open spec fn parse_fixed(t: Seq<u8>) -> Option<int> {
    let i0: int = if t.len() > 0 && (t[0] == 43 || t[0] == 45) {
        1
    } else {
        0
    };
    let neg = t.len() > 0 && t[0] == 45;
    let dot = find_byte(t, i0, 46);
    let fl: int = if dot < t.len() {
        t.len() - (dot + 1)
    } else {
        0
    };
    let kept: int = if fl < 6 {
        fl
    } else {
        6
    };
    if !(all_digits(t, i0, dot) && all_digits(t, dot + 1, t.len() as int)) {
        None
    } else if (dot - i0) + fl < 1 {
        None
    } else if digits_val(t, i0, dot) > MAX_WHOLE {
        None
    } else {
        let ip = digits_val(t, i0, dot);
        let fp = digits_val(t, dot + 1, dot + 1 + kept) * pow10(6 - kept);
        let m = ip * SCALE + fp;
        if neg {
            Some(-m)
        } else {
            Some(m)
        }
    }
}

/// The value of the 1-based index literal `t`: one or more digits, worth at
/// most [`MAX_INDEX`] and at most `usize::MAX`.
pub open spec fn parse_index(t: Seq<u8>) -> Option<int> {
    if t.len() >= 1 && all_digits(t, 0, t.len() as int) && digits_val(t, 0, t.len() as int)
        <= usize::MAX && digits_val(t, 0, t.len() as int) <= MAX_INDEX {
        Some(digits_val(t, 0, t.len() as int))
    } else {
        None
    }
}

/// The three 1-based indices of a face group `a/b/c`; anything after a
/// third slash is ignored.
pub open spec fn parse_group(t: Seq<u8>) -> Option<(int, int, int)> {
    let p1 = find_byte(t, 0, 47);
    let p2 = find_byte(t, p1 + 1, 47);
    let p3 = find_byte(t, p2 + 1, 47);
    if p1 >= t.len() || p2 >= t.len() {
        None
    } else {
        match (parse_index(t.subrange(0, p1)), parse_index(t.subrange(p1 + 1, p2)), parse_index(
            t.subrange(p2 + 1, p3),
        )) {
            (Some(a), Some(b), Some(c)) => Some((a, b, c)),
            _ => None,
        }
    }
}

/// Copies the bytes `[lo, hi)` of `bytes` into a fresh vector.
fn copy_range(bytes: &Vec<u8>, lo: usize, hi: usize) -> (r: Vec<u8>)
    requires
        lo <= hi <= bytes@.len(),
    ensures
        r@ == bytes@.subrange(lo as int, hi as int),
{
    let mut r: Vec<u8> = Vec::new();
    let mut i: usize = lo;
    while i < hi
        invariant
            lo <= i <= hi <= bytes@.len(),
            r@.len() == i - lo,
            forall|k: int| 0 <= k < i - lo ==> r@[k] == bytes@[lo + k],
        decreases hi - i,
    {
        r.push(bytes[i]);
        i += 1;
    }
    proof {
        assert(r@ =~= bytes@.subrange(lo as int, hi as int));
    }
    r
}

/// The first non-space position at or after `i`.
fn skip_spaces_exec(line: &Vec<u8>, i: usize) -> (r: usize)
    requires
        i <= line@.len(),
    ensures
        r == skip_spaces(line@, i as int),
        i <= r <= line@.len(),
{
    let n = line.len();
    let mut j = i;
    while j < n && (line[j] == 32 || (9 <= line[j] && line[j] <= 13))
        invariant
            i <= j <= n,
            n == line@.len(),
            skip_spaces(line@, i as int) == skip_spaces(line@, j as int),
        decreases n - j,
    {
        j += 1;
    }
    j
}

/// The first space position at or after `i`.
fn tok_end_exec(line: &Vec<u8>, i: usize) -> (r: usize)
    requires
        i <= line@.len(),
    ensures
        r == tok_end(line@, i as int),
        i <= r <= line@.len(),
{
    let n = line.len();
    let mut j = i;
    while j < n && !(line[j] == 32 || (9 <= line[j] && line[j] <= 13))
        invariant
            i <= j <= n,
            n == line@.len(),
            tok_end(line@, i as int) == tok_end(line@, j as int),
        decreases n - j,
    {
        j += 1;
    }
    j
}

/// The first position of `b` at or after `i`.
fn find_byte_exec(line: &Vec<u8>, i: usize, b: u8) -> (r: usize)
    requires
        i <= line@.len(),
    ensures
        r == find_byte(line@, i as int, b),
        i <= r <= line@.len(),
{
    let n = line.len();
    let mut j = i;
    while j < n && line[j] != b
        invariant
            i <= j <= n,
            n == line@.len(),
            find_byte(line@, i as int, b) == find_byte(line@, j as int, b),
        decreases n - j,
    {
        j += 1;
    }
    j
}

/// Reads the digit run `[i, j)` of `t`, refusing any value beyond `cap`.
fn digits_exec(t: &Vec<u8>, i: usize, j: usize, cap: u64) -> (r: Result<u64, ObjError>)
    requires
        i <= j <= t@.len(),
        cap <= 9_000_000_000_000_000_000u64,
    ensures
        match r {
            Ok(v) => all_digits(t@, i as int, j as int) && v == digits_val(t@, i as int, j as int)
                && v <= cap,
            Err(_) => !all_digits(t@, i as int, j as int) || digits_val(t@, i as int, j as int)
                > cap,
        },
{
    let mut acc: u64 = 0;
    let mut k = i;
    while k < j
        invariant
            i <= k <= j <= t@.len(),
            cap <= 9_000_000_000_000_000_000u64,
            all_digits(t@, i as int, k as int),
            acc == digits_val(t@, i as int, k as int),
            acc <= cap,
        decreases j - k,
    {
        let b = t[k];
        if b < 48 || b > 57 {
            return Err(ObjError::Malformed);
        }
        if acc > cap / 10 {
            proof {
                vstd::arithmetic::div_mod::lemma_fundamental_div_mod(cap as int, 10);
                assert(digits_val(t@, i as int, k + 1) > cap) by (nonlinear_arith)
                    requires
                        acc > cap / 10,
                        cap == 10 * (cap / 10) + cap % 10,
                        0 <= cap % 10 < 10,
                        digits_val(t@, i as int, k + 1) == acc * 10 + (t@[k as int] - 48),
                        is_digit(t@[k as int]),
                ;
                if all_digits(t@, i as int, j as int) {
                    lemma_digits_val_grows(t@, i as int, k + 1, j as int);
                }
            }
            return Err(ObjError::Malformed);
        }
        let acc2 = acc * 10 + (b - 48) as u64;
        if acc2 > cap {
            proof {
                if all_digits(t@, i as int, j as int) {
                    lemma_digits_val_grows(t@, i as int, k + 1, j as int);
                }
            }
            return Err(ObjError::Malformed);
        }
        acc = acc2;
        k += 1;
    }
    Ok(acc)
}

/// Are the bytes `[i, j)` of `t` all decimal digits?
fn check_digits(t: &Vec<u8>, i: usize, j: usize) -> (r: bool)
    requires
        i <= j <= t@.len(),
    ensures
        r == all_digits(t@, i as int, j as int),
{
    let mut k = i;
    while k < j
        invariant
            i <= k <= j <= t@.len(),
            all_digits(t@, i as int, k as int),
        decreases j - k,
    {
        let b = t[k];
        if b < 48 || b > 57 {
            return false;
        }
        k += 1;
    }
    true
}

/// Six or fewer digits are worth at most `999_999`.
proof fn lemma_frac_bound(s: Seq<u8>, i: int, j: int)
    requires
        all_digits(s, i, j),
        j - i <= 6,
    ensures
        digits_val(s, i, j) <= 999_999,
{
    lemma_digits_exact_bound(s, i, j);
    lemma_pow10_mono(j - i, 6);
    assert(pow10(6) == 1_000_000) by {
        reveal_with_fuel(pow10, 7);
    }
}

/// Ten to the `e`-th power, for `e` up to six.
fn pow10_exec(e: usize) -> (r: u64)
    requires
        e <= 6,
    ensures
        r == pow10(e as int),
{
    proof {
        reveal_with_fuel(pow10, 7);
    }
    if e == 0 {
        1
    } else if e == 1 {
        10
    } else if e == 2 {
        100
    } else if e == 3 {
        1_000
    } else if e == 4 {
        10_000
    } else if e == 5 {
        100_000
    } else {
        1_000_000
    }
}

/// Parses the decimal literal held in `t` into fixed point.
fn parse_fixed_exec(t: &Vec<u8>) -> (r: Result<i64, ObjError>)
    ensures
        match r {
            Ok(v) => parse_fixed(t@) == Some(v as int),
            Err(_) => parse_fixed(t@).is_none(),
        },
{
    let n = t.len();
    let mut i0: usize = 0;
    let mut neg = false;
    if n > 0 && (t[0] == 43 || t[0] == 45) {
        neg = t[0] == 45;
        i0 = 1;
    }
    let dot = find_byte_exec(t, i0, 46);
    let fl: usize = if dot < n {
        n - (dot + 1)
    } else {
        0
    };
    let kept: usize = if fl < 6 {
        fl
    } else {
        6
    };
    let ip = match digits_exec(t, i0, dot, MAX_WHOLE) {
        Ok(v) => v,
        Err(e) => {
            return Err(e);
        },
    };
    if dot - i0 + fl < 1 {
        return Err(ObjError::Malformed);
    }
    if dot < n {
        let frac_end = dot + 1 + kept;
        let fd = match digits_exec(t, dot + 1, frac_end, 999_999) {
            Ok(v) => v,
            Err(_) => {
                proof {
                    if all_digits(t@, dot + 1, frac_end as int) {
                        lemma_frac_bound(t@, dot + 1, frac_end as int);
                    }
                }
                return Err(ObjError::Malformed);
            },
        };
        if !check_digits(t, frac_end, n) {
            return Err(ObjError::Malformed);
        }
        proof {
            lemma_digits_exact_bound(t@, dot + 1, frac_end as int);
            lemma_pow10_bound(6 - kept);
            assert(fd * pow10(6 - kept) < 1_000_000) by (nonlinear_arith)
                requires
                    fd <= 999_999,
                    fd < pow10(kept as int),
                    pow10(kept as int) * pow10(6 - kept) == 1_000_000,
                    pow10(6 - kept) >= 1,
            ;
        }
        let fp = fd * pow10_exec(6 - kept);
        let m = ip * 1_000_000 + fp;
        if neg {
            Ok(-(m as i64))
        } else {
            Ok(m as i64)
        }
    } else {
        let m = ip * 1_000_000;
        if neg {
            Ok(-(m as i64))
        } else {
            Ok(m as i64)
        }
    }
}

/// A run of `j - i` digits is worth less than ten to the run's length.
proof fn lemma_digits_exact_bound(s: Seq<u8>, i: int, j: int)
    requires
        all_digits(s, i, j),
    ensures
        digits_val(s, i, j) < pow10(j - i),
    decreases j - i,
{
    if j <= i {
    } else {
        lemma_digits_exact_bound(s, i, j - 1);
        assert(digits_val(s, i, j - 1) * 10 + (s[j - 1] - 48) < pow10(j - i)) by (nonlinear_arith)
            requires
                digits_val(s, i, j - 1) < pow10(j - i - 1),
                pow10(j - i) == 10 * pow10(j - i - 1),
                is_digit(s[j - 1]),
        ;
    }
}

/// Parses the 1-based index literal held in `t`.
fn parse_index_exec(t: &Vec<u8>) -> (r: Result<usize, ObjError>)
    ensures
        match r {
            Ok(v) => parse_index(t@) == Some(v as int),
            Err(_) => parse_index(t@).is_none(),
        },
{
    let n = t.len();
    if n == 0 {
        return Err(ObjError::Malformed);
    }
    let cap: u64 = if (usize::MAX as u64) < MAX_INDEX {
        usize::MAX as u64
    } else {
        MAX_INDEX
    };
    match digits_exec(t, 0, n, cap) {
        Ok(v) => Ok(v as usize),
        Err(e) => Err(e),
    }
}

/// The largest face index the parser accepts.
pub const MAX_INDEX: u64 = 9_000_000_000_000_000_000;

/// Parses the face group `a/b/c` held in `t`.
fn parse_group_exec(t: &Vec<u8>) -> (r: Result<Vertex, ObjError>)
    ensures
        match r {
            Ok(v) => parse_group(t@) == Some((v.vi as int, v.vti as int, v.vni as int)),
            Err(_) => parse_group(t@).is_none(),
        },
{
    let n = t.len();
    let p1 = find_byte_exec(t, 0, 47);
    if p1 >= n {
        return Err(ObjError::Malformed);
    }
    let p2 = find_byte_exec(t, p1 + 1, 47);
    if p2 >= n {
        return Err(ObjError::Malformed);
    }
    let p3 = find_byte_exec(t, p2 + 1, 47);
    let t1 = copy_range(t, 0, p1);
    let t2 = copy_range(t, p1 + 1, p2);
    let t3 = copy_range(t, p2 + 1, p3);
    let vi = match parse_index_exec(&t1) {
        Ok(v) => v,
        Err(e) => {
            return Err(e);
        },
    };
    let vti = match parse_index_exec(&t2) {
        Ok(v) => v,
        Err(e) => {
            return Err(e);
        },
    };
    let vni = match parse_index_exec(&t3) {
        Ok(v) => v,
        Err(e) => {
            return Err(e);
        },
    };
    Ok(Vertex { vi, vti, vni })
}

/// The ghost model of a mesh: position, texture and normal rows in fixed
/// point, and faces as triples of 1-based indices.
pub ghost struct ObjModel {
    pub vs: Seq<Seq<int>>,
    pub vts: Seq<Seq<int>>,
    pub vns: Seq<Seq<int>>,
    pub fs: Seq<Seq<(int, int, int)>>,
}

/// The empty mesh model.
pub open spec fn empty_model() -> ObjModel {
    ObjModel { vs: seq![], vts: seq![], vns: seq![], fs: seq![] }
}

/// `k` whitespace-separated decimal literals read from position `p` on.
pub open spec fn parse_nums(s: Seq<u8>, p: int, k: int) -> Option<Seq<int>>
    decreases k,
{
    if k <= 0 {
        Some(seq![])
    } else {
        let st = skip_spaces(s, p);
        if st >= s.len() {
            None
        } else {
            let en = tok_end(s, st);
            match parse_fixed(s.subrange(st, en)) {
                Some(v) => match parse_nums(s, en, k - 1) {
                    Some(rest) => Some(seq![v] + rest),
                    None => None,
                },
                None => None,
            }
        }
    }
}

/// `k` whitespace-separated face groups read from position `p` on.
pub open spec fn parse_groups(s: Seq<u8>, p: int, k: int) -> Option<Seq<(int, int, int)>>
    decreases k,
{
    if k <= 0 {
        Some(seq![])
    } else {
        let st = skip_spaces(s, p);
        if st >= s.len() {
            None
        } else {
            let en = tok_end(s, st);
            match parse_group(s.subrange(st, en)) {
                Some(v) => match parse_groups(s, en, k - 1) {
                    Some(rest) => Some(seq![v] + rest),
                    None => None,
                },
                None => None,
            }
        }
    }
}

/// One line applied to the model: `v` appends a position, `vt` a texture
/// coordinate, `vn` a normal, `f` a face; every other line is skipped, and
/// a bad number or group is a hard failure.
pub open spec fn line_update(m: ObjModel, s: Seq<u8>) -> Option<ObjModel> {
    if s.len() >= 2 && s[0] == 118 && s[1] == 32 {
        match parse_nums(s, tok_end(s, 0), 3) {
            Some(v) => Some(ObjModel { vs: m.vs.push(v), ..m }),
            None => None,
        }
    } else if s.len() >= 3 && s[0] == 118 && s[1] == 116 && s[2] == 32 {
        match parse_nums(s, tok_end(s, 0), 2) {
            Some(v) => Some(ObjModel { vts: m.vts.push(v), ..m }),
            None => None,
        }
    } else if s.len() >= 3 && s[0] == 118 && s[1] == 110 && s[2] == 32 {
        match parse_nums(s, tok_end(s, 0), 3) {
            Some(v) => Some(ObjModel { vns: m.vns.push(v), ..m }),
            None => None,
        }
    } else if s.len() >= 2 && s[0] == 102 && s[1] == 32 {
        match parse_groups(s, tok_end(s, 0), 3) {
            Some(g) => Some(ObjModel { fs: m.fs.push(g), ..m }),
            None => None,
        }
    } else {
        Some(m)
    }
}

/// The mesh read from the text `s`, starting mid-scan: the current line
/// began at `start`, the scan stands at `i`, and `m` holds everything read
/// so far.  Each newline ends a line; the text's tail is the final line.
pub open spec fn parse_from(s: Seq<u8>, start: int, i: int, m: ObjModel) -> Option<ObjModel>
    decreases s.len() - i,
{
    if i < 0 || i >= s.len() {
        line_update(m, s.subrange(start, i))
    } else if s[i] == 10 {
        match line_update(m, s.subrange(start, i)) {
            Some(m2) => parse_from(s, i + 1, i + 1, m2),
            None => None,
        }
    } else {
        parse_from(s, start, i + 1, m)
    }
}

/// The mesh read from the whole text `s`, or `None` on a hard parse
/// failure.
pub open spec fn parse_obj_spec(s: Seq<u8>) -> Option<ObjModel> {
    parse_from(s, 0, 0, empty_model())
}

/// A mesh: ordered positions, texture coordinates, normals, and triangular
/// faces referring to them by 1-based index.
#[derive(Debug)]
pub struct Obj {
    pub vs: Vec<Matrix>,
    pub vts: Vec<Matrix>,
    pub vns: Vec<Matrix>,
    pub fs: Vec<Triangle>,
}

impl Obj {
    /// Well-formedness: positions and normals are 3-element vectors,
    /// texture coordinates 2-element vectors, and every face has exactly
    /// three corners.
    pub open spec fn wf(&self) -> bool {
        &&& (forall|i: int|
            0 <= i < self.vs@.len() ==> (#[trigger] self.vs@[i]).wf() && self.vs@[i].nrows() == 1
                && self.vs@[i].ncols() == 3)
        &&& (forall|i: int|
            0 <= i < self.vts@.len() ==> (#[trigger] self.vts@[i]).wf() && self.vts@[i].nrows()
                == 1 && self.vts@[i].ncols() == 2)
        &&& (forall|i: int|
            0 <= i < self.vns@.len() ==> (#[trigger] self.vns@[i]).wf() && self.vns@[i].nrows()
                == 1 && self.vns@[i].ncols() == 3)
        &&& (forall|i: int| 0 <= i < self.fs@.len() ==> (#[trigger] self.fs@[i]).vs@.len() == 3)
    }

    /// The ghost model of the mesh.
    pub open spec fn model(&self) -> ObjModel {
        ObjModel {
            vs: self.vs@.map_values(|m: Matrix| m@[0]),
            vts: self.vts@.map_values(|m: Matrix| m@[0]),
            vns: self.vns@.map_values(|m: Matrix| m@[0]),
            fs: self.fs@.map_values(
                |t: Triangle|
                    t.vs@.map_values(|v: Vertex| (v.vi as int, v.vti as int, v.vni as int)),
            ),
        }
    }
}

/// Reads one decimal literal: the token starting at the first non-space
/// position at or after `p`; returns its value and the token's end.
fn parse_num_at(line: &Vec<u8>, p: usize) -> (r: Result<(i64, usize), ObjError>)
    requires
        p <= line@.len(),
    ensures
        match r {
            Ok((v, np)) => {
                let st = skip_spaces(line@, p as int);
                &&& st < line@.len()
                &&& np == tok_end(line@, st)
                &&& p <= np <= line@.len()
                &&& parse_fixed(line@.subrange(st, np as int)) == Some(v as int)
            },
            Err(_) => {
                let st = skip_spaces(line@, p as int);
                st >= line@.len() || parse_fixed(
                    line@.subrange(st, tok_end(line@, st)),
                ).is_none()
            },
        },
{
    let st = skip_spaces_exec(line, p);
    if st == line.len() {
        return Err(ObjError::Malformed);
    }
    let en = tok_end_exec(line, st);
    let tok = copy_range(line, st, en);
    match parse_fixed_exec(&tok) {
        Ok(v) => Ok((v, en)),
        Err(e) => Err(e),
    }
}

/// Reads one face group: the token starting at the first non-space position
/// at or after `p`; returns its indices and the token's end.
fn parse_group_at(line: &Vec<u8>, p: usize) -> (r: Result<(Vertex, usize), ObjError>)
    requires
        p <= line@.len(),
    ensures
        match r {
            Ok((v, np)) => {
                let st = skip_spaces(line@, p as int);
                &&& st < line@.len()
                &&& np == tok_end(line@, st)
                &&& p <= np <= line@.len()
                &&& parse_group(line@.subrange(st, np as int)) == Some(
                    (v.vi as int, v.vti as int, v.vni as int),
                )
            },
            Err(_) => {
                let st = skip_spaces(line@, p as int);
                st >= line@.len() || parse_group(
                    line@.subrange(st, tok_end(line@, st)),
                ).is_none()
            },
        },
{
    let st = skip_spaces_exec(line, p);
    if st == line.len() {
        return Err(ObjError::Malformed);
    }
    let en = tok_end_exec(line, st);
    let tok = copy_range(line, st, en);
    match parse_group_exec(&tok) {
        Ok(v) => Ok((v, en)),
        Err(e) => Err(e),
    }
}

/// Applies one text line to the mesh being built.
#[verifier::rlimit(100)]
fn process_line(line: &Vec<u8>, obj: &mut Obj) -> (r: Result<(), ObjError>)
    requires
        old(obj).wf(),
    ensures
        match r {
            Ok(_) => final(obj).wf() && line_update(old(obj).model(), line@) == Some(
                final(obj).model(),
            ),
            Err(_) => line_update(old(obj).model(), line@).is_none(),
        },
{
    let n = line.len();
    proof {
        reveal_with_fuel(parse_nums, 4);
        reveal_with_fuel(parse_groups, 4);
    }
    if n >= 2 && line[0] == 118 && line[1] == 32 {
        let e0 = tok_end_exec(line, 0);
        let (v1, p1) = match parse_num_at(line, e0) {
            Ok(t) => t,
            Err(e) => {
                return Err(e);
            },
        };
        let (v2, p2) = match parse_num_at(line, p1) {
            Ok(t) => t,
            Err(e) => {
                return Err(e);
            },
        };
        let (v3, _p3) = match parse_num_at(line, p2) {
            Ok(t) => t,
            Err(e) => {
                return Err(e);
            },
        };
        let mut row: Vec<i64> = Vec::new();
        row.push(v1);
        row.push(v2);
        row.push(v3);
        let m = match Matrix::from_row(1, &row) {
            Ok(m) => m,
            Err(_) => {
                proof {
                    assert(false);
                }
                return Err(ObjError::Malformed);
            },
        };
        proof {
            assert(parse_nums(line@, tok_end(line@, 0), 3) == Some(
                seq![v1 as int, v2 as int, v3 as int],
            )) by {
                assert(seq![v1 as int] + (seq![v2 as int] + (seq![v3 as int] + seq![]))
                    =~= seq![v1 as int, v2 as int, v3 as int]);
            }
            assert(m@[0] =~= seq![v1 as int, v2 as int, v3 as int]);
        }
        let ghost prev = *obj;
        obj.vs.push(m);
        proof {
            assert(obj.model().vs =~= prev.model().vs.push(m@[0]));
            assert(obj.model() == ObjModel { vs: prev.model().vs.push(m@[0]), ..prev.model() });
        }
        Ok(())
    } else if n >= 3 && line[0] == 118 && line[1] == 116 && line[2] == 32 {
        let e0 = tok_end_exec(line, 0);
        let (v1, p1) = match parse_num_at(line, e0) {
            Ok(t) => t,
            Err(e) => {
                return Err(e);
            },
        };
        let (v2, _p2) = match parse_num_at(line, p1) {
            Ok(t) => t,
            Err(e) => {
                return Err(e);
            },
        };
        let mut row: Vec<i64> = Vec::new();
        row.push(v1);
        row.push(v2);
        let m = match Matrix::from_row(1, &row) {
            Ok(m) => m,
            Err(_) => {
                proof {
                    assert(false);
                }
                return Err(ObjError::Malformed);
            },
        };
        proof {
            assert(parse_nums(line@, tok_end(line@, 0), 2) == Some(seq![v1 as int, v2 as int]))
                by {
                assert(seq![v1 as int] + (seq![v2 as int] + seq![]) =~= seq![v1 as int, v2 as int]);
            }
            assert(m@[0] =~= seq![v1 as int, v2 as int]);
        }
        let ghost prev = *obj;
        obj.vts.push(m);
        proof {
            assert(obj.model().vts =~= prev.model().vts.push(m@[0]));
            assert(obj.model() == ObjModel { vts: prev.model().vts.push(m@[0]), ..prev.model() });
        }
        Ok(())
    } else if n >= 3 && line[0] == 118 && line[1] == 110 && line[2] == 32 {
        let e0 = tok_end_exec(line, 0);
        let (v1, p1) = match parse_num_at(line, e0) {
            Ok(t) => t,
            Err(e) => {
                return Err(e);
            },
        };
        let (v2, p2) = match parse_num_at(line, p1) {
            Ok(t) => t,
            Err(e) => {
                return Err(e);
            },
        };
        let (v3, _p3) = match parse_num_at(line, p2) {
            Ok(t) => t,
            Err(e) => {
                return Err(e);
            },
        };
        let mut row: Vec<i64> = Vec::new();
        row.push(v1);
        row.push(v2);
        row.push(v3);
        let m = match Matrix::from_row(1, &row) {
            Ok(m) => m,
            Err(_) => {
                proof {
                    assert(false);
                }
                return Err(ObjError::Malformed);
            },
        };
        proof {
            assert(parse_nums(line@, tok_end(line@, 0), 3) == Some(
                seq![v1 as int, v2 as int, v3 as int],
            )) by {
                assert(seq![v1 as int] + (seq![v2 as int] + (seq![v3 as int] + seq![]))
                    =~= seq![v1 as int, v2 as int, v3 as int]);
            }
            assert(m@[0] =~= seq![v1 as int, v2 as int, v3 as int]);
        }
        let ghost prev = *obj;
        obj.vns.push(m);
        proof {
            assert(obj.model().vns =~= prev.model().vns.push(m@[0]));
            assert(obj.model() == ObjModel { vns: prev.model().vns.push(m@[0]), ..prev.model() });
        }
        Ok(())
    } else if n >= 2 && line[0] == 102 && line[1] == 32 {
        let e0 = tok_end_exec(line, 0);
        let (g1, p1) = match parse_group_at(line, e0) {
            Ok(t) => t,
            Err(e) => {
                return Err(e);
            },
        };
        let (g2, p2) = match parse_group_at(line, p1) {
            Ok(t) => t,
            Err(e) => {
                return Err(e);
            },
        };
        let (g3, _p3) = match parse_group_at(line, p2) {
            Ok(t) => t,
            Err(e) => {
                return Err(e);
            },
        };
        let mut corners: Vec<Vertex> = Vec::new();
        corners.push(g1);
        corners.push(g2);
        corners.push(g3);
        let tri = Triangle { vs: corners };
        let ghost trip = (
            (g1.vi as int, g1.vti as int, g1.vni as int),
            (g2.vi as int, g2.vti as int, g2.vni as int),
            (g3.vi as int, g3.vti as int, g3.vni as int),
        );
        proof {
            assert(parse_groups(line@, tok_end(line@, 0), 3) == Some(
                seq![trip.0, trip.1, trip.2],
            )) by {
                assert(seq![trip.0] + (seq![trip.1] + (seq![trip.2] + seq![]))
                    =~= seq![trip.0, trip.1, trip.2]);
            }
            assert(tri.vs@.map_values(
                |v: Vertex| (v.vi as int, v.vti as int, v.vni as int),
            ) =~= seq![trip.0, trip.1, trip.2]);
        }
        let ghost prev = *obj;
        obj.fs.push(tri);
        proof {
            assert(obj.model().fs =~= prev.model().fs.push(seq![trip.0, trip.1, trip.2]));
            assert(obj.model() == ObjModel {
                fs: prev.model().fs.push(seq![trip.0, trip.1, trip.2]),
                ..prev.model()
            });
        }
        Ok(())
    } else {
        proof {
            assert(obj.model() == old(obj).model());
        }
        Ok(())
    }
}

impl Obj {
    /// Reads a mesh from the byte text `bytes`, line by line; a malformed
    /// or missing number where one is expected aborts with an error and no
    /// partial mesh.
    pub fn parse(bytes: &Vec<u8>) -> (r: Result<Obj, ObjError>)
        ensures
            match r {
                Ok(o) => o.wf() && parse_obj_spec(bytes@) == Some(o.model()),
                Err(_) => parse_obj_spec(bytes@).is_none(),
            },
    {
        let mut obj = Obj { vs: Vec::new(), vts: Vec::new(), vns: Vec::new(), fs: Vec::new() };
        let n = bytes.len();
        let mut start: usize = 0;
        let mut i: usize = 0;
        proof {
            assert(obj.model().vs =~= empty_model().vs);
            assert(obj.model().vts =~= empty_model().vts);
            assert(obj.model().vns =~= empty_model().vns);
            assert(obj.model().fs =~= empty_model().fs);
            assert(obj.model() == empty_model());
        }
        while i < n
            invariant
                start <= i <= n,
                n == bytes@.len(),
                obj.wf(),
                parse_obj_spec(bytes@) == parse_from(bytes@, start as int, i as int, obj.model()),
            decreases n - i,
        {
            if bytes[i] == 10 {
                let line = copy_range(bytes, start, i);
                match process_line(&line, &mut obj) {
                    Ok(_) => {},
                    Err(e) => {
                        return Err(e);
                    },
                }
                start = i + 1;
            }
            i += 1;
        }
        let line = copy_range(bytes, start, n);
        match process_line(&line, &mut obj) {
            Ok(_) => {},
            Err(e) => {
                return Err(e);
            },
        }
        Ok(obj)
    }
}

/// `pow10` grows with its exponent.
proof fn lemma_pow10_mono(a: int, b: int)
    requires
        a <= b,
    ensures
        pow10(a) <= pow10(b),
    decreases b - a,
{
    if a < b {
        lemma_pow10_mono(a, b - 1);
        lemma_pow10_pos(b - 1);
        if b > 0 {
            assert(pow10(b) == 10 * pow10(b - 1));
        }
    }
}

/// `pow10` is positive.
proof fn lemma_pow10_pos(e: int)
    ensures
        pow10(e) >= 1,
    decreases e,
{
    if e > 0 {
        lemma_pow10_pos(e - 1);
    }
}

/// `10^k * 10^(6-k) == 10^6` for `k` up to six.
proof fn lemma_pow10_bound(e: int)
    requires
        0 <= e <= 6,
    ensures
        pow10(e) >= 1,
        pow10(6 - e) * pow10(e) == 1_000_000,
    decreases e,
{
    lemma_pow10_pos(e);
    if e == 0 {
        assert(pow10(6) == 1_000_000) by {
            reveal_with_fuel(pow10, 7);
        }
    } else {
        lemma_pow10_bound(e - 1);
        assert(pow10(6 - e + 1) == 10 * pow10(6 - e));
        assert(pow10(e) == 10 * pow10(e - 1));
        assert(pow10(6 - e) * pow10(e) == (10 * pow10(6 - e)) * pow10(e - 1)) by (nonlinear_arith)
            requires
                pow10(e) == 10 * pow10(e - 1),
        ;
    }
}

} // verus!
