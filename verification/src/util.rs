//! Shared utilities around the engine: input configuration, work
//! partitioning, value condensing, index-file naming, range selection, and
//! filename templates.

use vstd::prelude::*;
use crate::text::{views, subvec, push_all, u64_to_dec, spec_dec_u64};
use crate::phases::spec_find_from;

verus! {

/// How one tabular input is to be read.  A missing path, or the path `-`,
/// names the standard input.
#[derive(Debug)]
pub struct Config {
    pub path: Option<Vec<u8>>,
    pub delimiter: Option<u8>,
    pub no_headers: bool,
    pub checkutf8: bool,
}

/// Whether a configuration reads the standard input.
pub open spec fn spec_is_stdin(path: Option<Seq<u8>>) -> bool {
    match path {
        None => true,
        Some(p) => p == seq![45u8],
    }
}

impl Config {
    /// A configuration for one input path, with headers expected and
    /// UTF-8 checking on.
    pub fn new(path: &Option<Vec<u8>>) -> (c: Config)
        ensures
            (match path {
                Some(p) => c.path matches Some(q) && q@ == p@,
                None => c.path is None,
            }),
            c.delimiter is None,
            !c.no_headers,
            c.checkutf8,
    {
        let p = match path {
            Some(p) => Some(subvec(p, 0, p.len())),
            None => None,
        };
        proof {
            match path {
                Some(p) => {
                    assert(p@.subrange(0, p@.len() as int) =~= p@);
                },
                None => {},
            }
        }
        Config { path: p, delimiter: None, no_headers: false, checkutf8: true }
    }

    /// Sets the field delimiter.
    pub fn delimiter(self, delim: Option<u8>) -> (c: Config)
        ensures
            c == (Config { delimiter: delim, ..self }),
    {
        Config { delimiter: delim, ..self }
    }

    /// Sets whether the first record is data.
    pub fn no_headers(self, yes: bool) -> (c: Config)
        ensures
            c == (Config { no_headers: yes, ..self }),
    {
        Config { no_headers: yes, ..self }
    }

    /// Sets whether input text is checked for UTF-8 validity.
    pub fn checkutf8(self, yes: bool) -> (c: Config)
        ensures
            c == (Config { checkutf8: yes, ..self }),
    {
        Config { checkutf8: yes, ..self }
    }

    /// Whether this input is the standard input.
    pub fn is_stdin(&self) -> (r: bool)
        ensures
            r == spec_is_stdin(match self.path {
                Some(p) => Some(p@),
                None => None,
            }),
    {
        match &self.path {
            None => true,
            Some(p) => {
                let r = p.len() == 1 && p[0] == 45;
                proof {
                    if p@ =~= seq![45u8] {
                        assert(p@.len() == 1 && p@[0] == 45u8);
                    }
                    if p@.len() == 1 && p@[0] == 45u8 {
                        assert(p@ =~= seq![45u8]);
                    }
                }
                r
            },
        }
    }
}

/// The number of standard-input configurations in a list.
pub open spec fn spec_n_stdin(cs: Seq<Config>) -> int
    decreases cs.len(),
{
    if cs.len() == 0 {
        0
    } else {
        spec_n_stdin(cs.drop_last()) + (if spec_is_stdin(
            match cs.last().path {
                Some(p) => Some(p@),
                None => None,
            },
        ) {
            1int
        } else {
            0int
        })
    }
}

/// The number of paths naming the standard input.
pub open spec fn spec_n_stdin_paths(paths: Seq<Seq<u8>>) -> int
    decreases paths.len(),
{
    if paths.len() == 0 {
        0
    } else {
        spec_n_stdin_paths(paths.drop_last()) + (if paths.last() == seq![45u8] {
            1int
        } else {
            0int
        })
    }
}

proof fn lemma_n_stdin_of_paths(cs: Seq<Config>, paths: Seq<Seq<u8>>)
    requires
        cs.len() == paths.len(),
        forall|k: int|
            0 <= k < cs.len() ==> ((#[trigger] cs[k]).path matches Some(p) && p@ == paths[k]),
    ensures
        spec_n_stdin(cs) == spec_n_stdin_paths(paths),
    decreases cs.len(),
{
    if cs.len() > 0 {
        assert forall|k: int|
            0 <= k < cs.drop_last().len() implies (#[trigger] cs.drop_last()[k]).path matches Some(
            p,
        ) && p@ == paths.drop_last()[k] by {
            assert(cs.drop_last()[k] == cs[k]);
            assert(paths.drop_last()[k] == paths[k]);
        }
        lemma_n_stdin_of_paths(cs.drop_last(), paths.drop_last());
        assert(cs[cs.len() - 1].path matches Some(p) && p@ == paths[paths.len() - 1]);
    }
}

/// `At most one <stdin> input is allowed.`
pub open spec fn txt_stdin_err() -> Seq<u8> {
    seq![
        65u8, 116u8, 32u8, 109u8, 111u8, 115u8, 116u8, 32u8, 111u8, 110u8, 101u8, 32u8, 60u8,
        115u8, 116u8, 100u8, 105u8, 110u8, 62u8, 32u8, 105u8, 110u8, 112u8, 117u8, 116u8, 32u8,
        105u8, 115u8, 32u8, 97u8, 108u8, 108u8, 111u8, 119u8, 101u8, 100u8, 46u8,
    ]
}

/// Rejects a list of inputs naming the standard input more than once.
pub fn errif_greater_one_stdin(inps: &Vec<Config>) -> (r: Result<(), Vec<u8>>)
    ensures
        (r is Ok) <==> spec_n_stdin(inps@) <= 1,
        r matches Err(e) ==> e@ == txt_stdin_err(),
{
    let mut count: usize = 0;
    let mut i: usize = 0;
    while i < inps.len()
        invariant
            i <= inps@.len(),
            count as int == spec_n_stdin(inps@.subrange(0, i as int)),
            count <= i,
        decreases inps.len() - i,
    {
        if inps[i].is_stdin() {
            count += 1;
        }
        i += 1;
        proof {
            assert(inps@.subrange(0, i as int).drop_last() =~= inps@.subrange(0, i - 1));
            assert(inps@.subrange(0, i as int).last() == inps@[i - 1]);
        }
    }
    proof {
        assert(inps@.subrange(0, inps@.len() as int) =~= inps@);
    }
    if count > 1 {
        let e = vec![
            65u8, 116, 32, 109, 111, 115, 116, 32, 111, 110, 101, 32, 60, 115, 116, 100, 105, 110,
            62, 32, 105, 110, 112, 117, 116, 32, 105, 115, 32, 97, 108, 108, 111, 119, 101, 100,
            46,
        ];
        assert(e@ =~= txt_stdin_err());
        Err(e)
    } else {
        Ok(())
    }
}

/// Builds one configuration per input path — the standard input when none
/// is given — and rejects a list, and only a list, naming the standard
/// input more than once.
pub fn many_configs(inps: &Vec<Vec<u8>>, delim: Option<u8>, no_headers: bool) -> (r: Result<
    Vec<Config>,
    Vec<u8>,
>)
    ensures
        (r is Ok) <==> spec_n_stdin_paths(
            if inps@.len() == 0 {
                seq![seq![45u8]]
            } else {
                views(inps@)
            },
        ) <= 1,
        r matches Ok(cs) ==> {
            let effective: Seq<Seq<u8>> = if inps@.len() == 0 {
                seq![seq![45u8]]
            } else {
                views(inps@)
            };
            &&& cs@.len() == effective.len()
            &&& forall|k: int|
                0 <= k < cs@.len() ==> {
                    &&& (#[trigger] cs@[k]).path matches Some(p) && p@ == effective[k]
                    &&& cs@[k].delimiter == delim
                    &&& cs@[k].no_headers == no_headers
                    &&& !cs@[k].checkutf8
                }
            &&& spec_n_stdin(cs@) <= 1
        },
        r matches Err(e) ==> e@ == txt_stdin_err(),
{
    let mut paths: Vec<Vec<u8>> = Vec::new();
    if inps.len() == 0 {
        let d = vec![45u8];
        assert(d@ =~= seq![45u8]);
        paths.push(d);
        assert(views(paths@) =~= seq![seq![45u8]]);
    } else {
        let mut i: usize = 0;
        while i < inps.len()
            invariant
                i <= inps@.len(),
                views(paths@) == views(inps@).subrange(0, i as int),
            decreases inps.len() - i,
        {
            paths.push(subvec(&inps[i], 0, inps[i].len()));
            i += 1;
            proof {
                assert(inps@[i - 1]@.subrange(0, inps@[i - 1]@.len() as int) =~= inps@[i - 1]@);
                assert(views(paths@) =~= views(inps@).subrange(0, i as int));
            }
        }
        proof {
            assert(views(inps@).subrange(0, inps@.len() as int) =~= views(inps@));
        }
    }
    let ghost effective: Seq<Seq<u8>> = views(paths@);
    let mut confs: Vec<Config> = Vec::new();
    let mut j: usize = 0;
    while j < paths.len()
        invariant
            j <= paths@.len(),
            effective == views(paths@),
            confs@.len() == j,
            forall|k: int|
                0 <= k < j ==> {
                    &&& (#[trigger] confs@[k]).path matches Some(p) && p@ == effective[k]
                    &&& confs@[k].delimiter == delim
                    &&& confs@[k].no_headers == no_headers
                    &&& !confs@[k].checkutf8
                },
        decreases paths.len() - j,
    {
        let pj = Some(subvec(&paths[j], 0, paths[j].len()));
        proof {
            assert(paths@[j as int]@.subrange(0, paths@[j as int]@.len() as int)
                =~= paths@[j as int]@);
        }
        let c = Config::new(&pj).delimiter(delim).no_headers(no_headers).checkutf8(false);
        confs.push(c);
        j += 1;
    }
    proof {
        lemma_n_stdin_of_paths(confs@, effective);
    }
    match errif_greater_one_stdin(&confs) {
        Ok(_) => Ok(confs),
        Err(e) => Err(e),
    }
}

/// The share of `nitems` that one of `njobs` workers takes.
pub fn chunk_size(nitems: usize, njobs: usize) -> (r: usize)
    requires
        nitems < njobs || njobs > 0,
    ensures
        r == (if nitems < njobs {
            nitems as int
        } else {
            nitems as int / njobs as int
        }),
{
    if nitems < njobs {
        nitems
    } else {
        nitems / njobs
    }
}

/// How many chunks of `chunk_size` cover `nitems`, the last possibly
/// short; a chunk size of `0` counts one chunk per item.
pub fn num_of_chunks(nitems: usize, chunk_size: usize) -> (r: usize)
    ensures
        chunk_size == 0 ==> r == nitems,
        chunk_size > 0 ==> r == (if nitems as int % chunk_size as int == 0 {
            nitems as int / chunk_size as int
        } else {
            nitems as int / chunk_size as int + 1
        }),
{
    if chunk_size == 0 {
        return nitems;
    }
    let mut n = nitems / chunk_size;
    if nitems % chunk_size != 0 {
        proof {
            let q = nitems as int / chunk_size as int;
            let m = nitems as int % chunk_size as int;
            vstd::arithmetic::div_mod::lemma_fundamental_div_mod(
                nitems as int,
                chunk_size as int,
            );
            assert(nitems as int == (chunk_size as int) * q + m);
            assert(nitems as int == q * chunk_size as int + m) by (nonlinear_arith)
                requires
                    nitems as int == (chunk_size as int) * q + m;
            assert(q < nitems as int) by (nonlinear_arith)
                requires
                    chunk_size as int >= 1,
                    m != 0,
                    0 <= m < chunk_size as int,
                    nitems as int == q * chunk_size as int + m;
        }
        n += 1;
    }
    n
}

/// Whether a continuation byte follows a UTF-8 lead byte.
pub open spec fn utf8_cont(b: u8) -> bool {
    128 <= b <= 191
}

/// The width of the first UTF-8 character of `s`, by its lead byte.
pub open spec fn utf8_first_width(s: Seq<u8>) -> int {
    if s.len() == 0 {
        0
    } else if s[0] < 128 {
        1
    } else if 194 <= s[0] <= 223 {
        2
    } else if 224 <= s[0] <= 239 {
        3
    } else if 240 <= s[0] <= 244 {
        4
    } else {
        0
    }
}

/// Whether `s` begins with one well-formed UTF-8 character.
pub open spec fn utf8_first_ok(s: Seq<u8>) -> bool {
    if s.len() == 0 {
        false
    } else if s[0] < 128 {
        true
    } else if 194 <= s[0] <= 223 {
        s.len() >= 2 && utf8_cont(s[1])
    } else if s[0] == 224 {
        s.len() >= 3 && 160 <= s[1] <= 191 && utf8_cont(s[2])
    } else if 225 <= s[0] <= 236 {
        s.len() >= 3 && utf8_cont(s[1]) && utf8_cont(s[2])
    } else if s[0] == 237 {
        s.len() >= 3 && 128 <= s[1] <= 159 && utf8_cont(s[2])
    } else if 238 <= s[0] <= 239 {
        s.len() >= 3 && utf8_cont(s[1]) && utf8_cont(s[2])
    } else if s[0] == 240 {
        s.len() >= 4 && 144 <= s[1] <= 191 && utf8_cont(s[2]) && utf8_cont(s[3])
    } else if 241 <= s[0] <= 243 {
        s.len() >= 4 && utf8_cont(s[1]) && utf8_cont(s[2]) && utf8_cont(s[3])
    } else if s[0] == 244 {
        s.len() >= 4 && 128 <= s[1] <= 143 && utf8_cont(s[2]) && utf8_cont(s[3])
    } else {
        false
    }
}

/// The number of characters of a well-formed UTF-8 text, or nothing when
/// the text is not well formed.
pub open spec fn spec_utf8_count(s: Seq<u8>) -> Option<nat>
    decreases s.len(),
{
    if s.len() == 0 {
        Some(0)
    } else if !utf8_first_ok(s) {
        None
    } else {
        match spec_utf8_count(s.skip(utf8_first_width(s))) {
            Some(c) => Some((c + 1) as nat),
            None => None,
        }
    }
}

/// The first `n` characters of a well-formed UTF-8 text.
pub open spec fn spec_prefix_chars(s: Seq<u8>, n: int) -> Seq<u8>
    decreases n,
{
    if n <= 0 {
        Seq::empty()
    } else {
        s.subrange(0, utf8_first_width(s)) + spec_prefix_chars(s.skip(utf8_first_width(s)), n - 1)
    }
}

/// Classifies the first character: well-formed, and how wide.
fn utf8_first_info(v: &Vec<u8>) -> (r: (bool, usize))
    ensures
        r.0 == utf8_first_ok(v@),
        r.0 ==> r.1 as int == utf8_first_width(v@) && 1 <= r.1 <= v@.len(),
{
    if v.len() == 0 {
        return (false, 0);
    }
    let b0 = v[0];
    if b0 < 128 {
        (true, 1)
    } else if 194 <= b0 && b0 <= 223 {
        (v.len() >= 2 && 128 <= v[1] && v[1] <= 191, 2)
    } else if b0 == 224 {
        (v.len() >= 3 && 160 <= v[1] && v[1] <= 191 && 128 <= v[2] && v[2] <= 191, 3)
    } else if 225 <= b0 && b0 <= 236 {
        (v.len() >= 3 && 128 <= v[1] && v[1] <= 191 && 128 <= v[2] && v[2] <= 191, 3)
    } else if b0 == 237 {
        (v.len() >= 3 && 128 <= v[1] && v[1] <= 159 && 128 <= v[2] && v[2] <= 191, 3)
    } else if 238 <= b0 && b0 <= 239 {
        (v.len() >= 3 && 128 <= v[1] && v[1] <= 191 && 128 <= v[2] && v[2] <= 191, 3)
    } else if b0 == 240 {
        (
            v.len() >= 4 && 144 <= v[1] && v[1] <= 191 && 128 <= v[2] && v[2] <= 191 && 128 <= v[3]
                && v[3] <= 191,
            4,
        )
    } else if 241 <= b0 && b0 <= 243 {
        (
            v.len() >= 4 && 128 <= v[1] && v[1] <= 191 && 128 <= v[2] && v[2] <= 191 && 128 <= v[3]
                && v[3] <= 191,
            4,
        )
    } else if b0 == 244 {
        (
            v.len() >= 4 && 128 <= v[1] && v[1] <= 143 && 128 <= v[2] && v[2] <= 191 && 128 <= v[3]
                && v[3] <= 191,
            4,
        )
    } else {
        (false, 0)
    }
}

/// Counts the characters of a well-formed UTF-8 text.
fn utf8_count(v: &Vec<u8>) -> (r: Option<usize>)
    ensures
        (match r {
            Some(c) => spec_utf8_count(v@) == Some(c as nat) && c <= v@.len(),
            None => spec_utf8_count(v@) is None,
        }),
    decreases v@.len(),
{
    if v.len() == 0 {
        return Some(0);
    }
    let (ok, w) = utf8_first_info(v);
    if !ok {
        return None;
    }
    let rest = subvec(v, w, v.len());
    proof {
        assert(rest@ =~= v@.skip(utf8_first_width(v@)));
    }
    match utf8_count(&rest) {
        Some(c) => Some(c + 1),
        None => None,
    }
}

/// Copies the first `n` characters of a well-formed UTF-8 text.
fn prefix_chars(v: &Vec<u8>, n: usize) -> (r: Vec<u8>)
    requires
        spec_utf8_count(v@) matches Some(c) && n <= c,
    ensures
        r@ == spec_prefix_chars(v@, n as int),
    decreases n,
{
    if n == 0 {
        return Vec::new();
    }
    proof {
        assert(utf8_first_ok(v@));
    }
    let (_ok, w) = utf8_first_info(v);
    let mut head = subvec(v, 0, w);
    let rest = subvec(v, w, v.len());
    proof {
        assert(rest@ =~= v@.skip(utf8_first_width(v@)));
    }
    let mut tail = prefix_chars(&rest, n - 1);
    head.append(&mut tail);
    head
}

/// `...`
pub open spec fn txt_ellipsis() -> Seq<u8> {
    seq![46u8, 46u8, 46u8]
}

fn ellipsis_vec() -> (r: Vec<u8>)
    ensures
        r@ == txt_ellipsis(),
{
    let r = vec![46u8, 46, 46];
    assert(r@ =~= txt_ellipsis());
    r
}

/// What condensing leaves of a value: unchanged when within `n`
/// characters (or, for text that is not well-formed UTF-8, within `n`
/// bytes); else cut there, with an ellipsis appended.
pub open spec fn spec_condense(v: Seq<u8>, n: Option<usize>) -> Seq<u8> {
    match n {
        None => v,
        Some(nn) => match spec_utf8_count(v) {
            Some(c) => if nn >= c {
                v
            } else {
                spec_prefix_chars(v, nn as int) + txt_ellipsis()
            },
            None => if nn >= v.len() {
                v
            } else {
                v.subrange(0, nn as int) + txt_ellipsis()
            },
        },
    }
}

/// Condenses a value to at most `n` characters, appending an ellipsis when
/// it was cut; a value that is not well-formed UTF-8 is cut on bytes.
pub fn condense(val: Vec<u8>, n: Option<usize>) -> (r: Vec<u8>)
    ensures
        r@ == spec_condense(val@, n),
{
    let nn = match n {
        None => {
            return val;
        },
        Some(nn) => nn,
    };
    match utf8_count(&val) {
        Some(c) => {
            if nn >= c {
                val
            } else {
                let mut r = prefix_chars(&val, nn);
                let mut e = ellipsis_vec();
                r.append(&mut e);
                r
            }
        },
        None => {
            if nn >= val.len() {
                val
            } else {
                let mut r = subvec(&val, 0, nn);
                let mut e = ellipsis_vec();
                r.append(&mut e);
                r
            }
        },
    }
}

/// `.idx`
pub open spec fn txt_idx_ext() -> Seq<u8> {
    seq![46u8, 105u8, 100u8, 120u8]
}

/// The path of the index artifact beside a dataset: the dataset's path
/// with `.idx` appended.
pub fn idx_path(csv_path: &Vec<u8>) -> (r: Vec<u8>)
    ensures
        r@ == csv_path@ + txt_idx_ext(),
{
    let mut r = subvec(csv_path, 0, csv_path.len());
    proof {
        assert(csv_path@.subrange(0, csv_path@.len() as int) =~= csv_path@);
    }
    let mut e = vec![46u8, 105, 100, 120];
    assert(e@ =~= txt_idx_ext());
    push_all(&mut r, &e);
    r
}

/// A half-open record range, from selection flags.
pub type Idx = Option<usize>;

/// Why a range selection is rejected.
#[derive(Debug, PartialEq, Eq)]
pub enum RangeError {
    /// An index selection excludes the other flags.
    IndexWithOthers,
    /// An end and a length cannot both be given.
    EndWithLen,
    /// The range's end lies before its start.
    EndBeforeStart { start: usize, end: usize },
}

/// The range selected by the flags, or why they are rejected: an index
/// alone selects that one record; an end must not precede the start; a
/// length counts from the start; nothing selects everything.
pub open spec fn spec_range(start: Idx, end: Idx, len: Idx, index: Idx) -> Result<
    (usize, usize),
    RangeError,
> {
    match (start, end, len, index) {
        (None, None, None, Some(i)) => Ok((i, (i + 1) as usize)),
        (_, _, _, Some(_)) => Err(RangeError::IndexWithOthers),
        (_, Some(_), Some(_), None) => Err(RangeError::EndWithLen),
        (s, None, None, None) => Ok(
            (
                match s {
                    Some(s0) => s0,
                    None => 0,
                },
                usize::MAX,
            ),
        ),
        (s, Some(e), None, None) => {
            let s0 = match s {
                Some(s0) => s0,
                None => 0usize,
            };
            if s0 > e {
                Err(RangeError::EndBeforeStart { start: s0, end: e })
            } else {
                Ok((s0, e))
            }
        },
        (s, None, Some(l), None) => {
            let s0 = match s {
                Some(s0) => s0,
                None => 0usize,
            };
            Ok((s0, (s0 + l) as usize))
        },
    }
}

/// Selects a record range from the flags.
pub fn range(start: Idx, end: Idx, len: Idx, index: Idx) -> (r: Result<(usize, usize), RangeError>)
    requires
        (match index {
            Some(i) => i < usize::MAX,
            None => true,
        }),
        (index is None && end is None && len is Some) ==> (match start {
            Some(s0) => s0,
            None => 0,
        }) + (match len {
            Some(l) => l,
            None => 0,
        }) <= usize::MAX,
    ensures
        r == spec_range(start, end, len, index),
{
    match (start, end, len, index) {
        (None, None, None, Some(i)) => Ok((i, i + 1)),
        (_, _, _, Some(_)) => Err(RangeError::IndexWithOthers),
        (_, Some(_), Some(_), None) => Err(RangeError::EndWithLen),
        (s, None, None, None) => Ok(
            (
                match s {
                    Some(s0) => s0,
                    None => 0,
                },
                usize::MAX,
            ),
        ),
        (s, Some(e), None, None) => {
            let s0 = match s {
                Some(s0) => s0,
                None => 0,
            };
            if s0 > e {
                Err(RangeError::EndBeforeStart { start: s0, end: e })
            } else {
                Ok((s0, e))
            }
        },
        (s, None, Some(l), None) => {
            let s0 = match s {
                Some(s0) => s0,
                None => 0,
            };
            Ok((s0, s0 + l))
        },
    }
}

impl RangeError {
    /// The user-visible message of a rejected range.
    pub fn message(&self) -> (m: Vec<u8>)
        ensures
            m@ == spec_range_error_text(*self),
    {
        match self {
            RangeError::IndexWithOthers => {
                let m = vec![
                    45u8, 45, 105, 110, 100, 101, 120, 32, 99, 97, 110, 110, 111, 116, 32, 98, 101,
                    32, 117, 115, 101, 100, 32, 119, 105, 116, 104, 32, 45, 45, 115, 116, 97, 114,
                    116, 44, 32, 45, 45, 101, 110, 100, 32, 111, 114, 32, 45, 45, 108, 101, 110,
                ];
                assert(m@ =~= spec_range_error_text(*self));
                m
            },
            RangeError::EndWithLen => {
                let m = vec![
                    45u8, 45, 101, 110, 100, 32, 97, 110, 100, 32, 45, 45, 108, 101, 110, 32, 99,
                    97, 110, 110, 111, 116, 32, 98, 101, 32, 117, 115, 101, 100, 32, 97, 116, 32,
                    116, 104, 101, 32, 115, 97, 109, 101, 32, 116, 105, 109, 101, 46,
                ];
                assert(m@ =~= spec_range_error_text(*self));
                m
            },
            RangeError::EndBeforeStart { start, end } => {
                let mut m = vec![
                    84u8, 104, 101, 32, 101, 110, 100, 32, 111, 102, 32, 116, 104, 101, 32, 114,
                    97, 110, 103, 101, 32, 40,
                ];
                assert(m@ =~= spec_range_error_text(*self).subrange(0, 22));
                let mut d = u64_to_dec(*end as u64);
                push_all(&mut m, &d);
                let mid = vec![
                    41u8, 32, 109, 117, 115, 116, 32, 98, 101, 32, 103, 114, 101, 97, 116, 101,
                    114, 32, 116, 104, 97, 110, 32, 111, 114, 10, 101, 113, 117, 97, 108, 32, 116,
                    111, 32, 116, 104, 101, 32, 115, 116, 97, 114, 116, 32, 111, 102, 32, 116, 104,
                    101, 32, 114, 97, 110, 103, 101, 32, 40,
                ];
                push_all(&mut m, &mid);
                let d2 = u64_to_dec(*start as u64);
                push_all(&mut m, &d2);
                let tail = vec![41u8, 46];
                push_all(&mut m, &tail);
                assert(m@ =~= spec_range_error_text(*self));
                m
            },
        }
    }
}

/// The exact message of each range rejection.
pub open spec fn spec_range_error_text(e: RangeError) -> Seq<u8> {
    match e {
        RangeError::IndexWithOthers => seq![
            45u8, 45u8, 105u8, 110u8, 100u8, 101u8, 120u8, 32u8, 99u8, 97u8, 110u8, 110u8, 111u8,
            116u8, 32u8, 98u8, 101u8, 32u8, 117u8, 115u8, 101u8, 100u8, 32u8, 119u8, 105u8, 116u8,
            104u8, 32u8, 45u8, 45u8, 115u8, 116u8, 97u8, 114u8, 116u8, 44u8, 32u8, 45u8, 45u8,
            101u8, 110u8, 100u8, 32u8, 111u8, 114u8, 32u8, 45u8, 45u8, 108u8, 101u8, 110u8,
        ],
        RangeError::EndWithLen => seq![
            45u8, 45u8, 101u8, 110u8, 100u8, 32u8, 97u8, 110u8, 100u8, 32u8, 45u8, 45u8, 108u8,
            101u8, 110u8, 32u8, 99u8, 97u8, 110u8, 110u8, 111u8, 116u8, 32u8, 98u8, 101u8, 32u8,
            117u8, 115u8, 101u8, 100u8, 32u8, 97u8, 116u8, 32u8, 116u8, 104u8, 101u8, 32u8, 115u8,
            97u8, 109u8, 101u8, 32u8, 116u8, 105u8, 109u8, 101u8, 46u8,
        ],
        RangeError::EndBeforeStart { start, end } => seq![
            84u8, 104u8, 101u8, 32u8, 101u8, 110u8, 100u8, 32u8, 111u8, 102u8, 32u8, 116u8, 104u8,
            101u8, 32u8, 114u8, 97u8, 110u8, 103u8, 101u8, 32u8, 40u8,
        ] + spec_dec_u64(end as nat) + seq![
            41u8, 32u8, 109u8, 117u8, 115u8, 116u8, 32u8, 98u8, 101u8, 32u8, 103u8, 114u8, 101u8,
            97u8, 116u8, 101u8, 114u8, 32u8, 116u8, 104u8, 97u8, 110u8, 32u8, 111u8, 114u8, 10u8,
            101u8, 113u8, 117u8, 97u8, 108u8, 32u8, 116u8, 111u8, 32u8, 116u8, 104u8, 101u8, 32u8,
            115u8, 116u8, 97u8, 114u8, 116u8, 32u8, 111u8, 102u8, 32u8, 116u8, 104u8, 101u8, 32u8,
            114u8, 97u8, 110u8, 103u8, 101u8, 32u8, 40u8,
        ] + spec_dec_u64(start as nat) + seq![41u8, 46u8],
    }
}

/// A filename template of the form `prefix{}suffix`: the marker is
/// replaced by a caller-supplied unique value.
pub struct FilenameTemplate {
    pub prefix: Vec<u8>,
    pub suffix: Vec<u8>,
}

/// `{}`
pub open spec fn txt_marker() -> Seq<u8> {
    seq![123u8, 125u8]
}

/// The two halves of a template holding the marker exactly once.
pub open spec fn spec_template_split(raw: Seq<u8>) -> Option<(Seq<u8>, Seq<u8>)> {
    match spec_find_from(raw, txt_marker(), 0) {
        None => None,
        Some(i) => match spec_find_from(raw, txt_marker(), i + 2) {
            Some(_) => None,
            None => Some((raw.subrange(0, i), raw.subrange(i + 2, raw.len() as int))),
        },
    }
}

impl FilenameTemplate {
    /// Parses a template; a text without exactly one marker is rejected.
    pub fn from_template(raw: &Vec<u8>) -> (r: Result<FilenameTemplate, ()>)
        ensures
            r matches Ok(t) ==> spec_template_split(raw@) == Some((t.prefix@, t.suffix@)),
            (r is Err) <==> spec_template_split(raw@) is None,
    {
        let marker = vec![123u8, 125];
        assert(marker@ =~= txt_marker());
        match crate::phases::find_from(raw, &marker, 0) {
            None => Err(()),
            Some(i) => {
                let rl = raw.len();
                proof {
                    crate::phases::lemma_find_from_props(raw@, txt_marker(), 0);
                    assert(crate::text::is_match_at(raw@, txt_marker(), i as int));
                    assert(i + 2 <= rl);
                }
                match crate::phases::find_from(raw, &marker, i + 2) {
                    Some(_) => Err(()),
                    None => {
                        proof {
                            crate::phases::lemma_find_from_props(raw@, txt_marker(), 0);
                            assert(crate::text::is_match_at(raw@, txt_marker(), i as int));
                        }
                        let prefix = subvec(raw, 0, i);
                        let suffix = subvec(raw, i + 2, raw.len());
                        Ok(FilenameTemplate { prefix, suffix })
                    },
                }
            },
        }
    }

    /// A filename from the template: the unique value stands where the
    /// marker stood.
    pub fn filename(&self, unique_value: &Vec<u8>) -> (r: Vec<u8>)
        ensures
            r@ == self.prefix@ + unique_value@ + self.suffix@,
    {
        let mut r = subvec(&self.prefix, 0, self.prefix.len());
        proof {
            assert(self.prefix@.subrange(0, self.prefix@.len() as int) =~= self.prefix@);
        }
        push_all(&mut r, unique_value);
        push_all(&mut r, &self.suffix);
        assert(r@ =~= self.prefix@ + unique_value@ + self.suffix@);
        r
    }
}


/// An ASCII letter or digit, the characters a safe name keeps.
pub open spec fn spec_alnum(b: u8) -> bool {
    (48 <= b <= 57) || (65 <= b <= 90) || (97 <= b <= 122)
}

/// A name made safe for use as a variable or key: every character that is
/// not an ASCII letter or digit — a multi-byte character counts as one —
/// becomes one underscore.
pub open spec fn spec_safe_name(s: Seq<u8>) -> Seq<u8>
    decreases s.len(),
{
    if s.len() == 0 {
        Seq::empty()
    } else if spec_alnum(s[0]) {
        seq![s[0]] + spec_safe_name(s.skip(1))
    } else {
        let w = if utf8_first_ok(s) {
            utf8_first_width(s)
        } else {
            1
        };
        seq![95u8] + spec_safe_name(s.skip(w))
    }
}

/// The first-character rule: a safe name that begins with a digit begins
/// with an underscore instead.
pub open spec fn spec_safe_first(s: Seq<u8>) -> Seq<u8> {
    if s.len() > 0 && 48 <= s[0] <= 57 {
        seq![95u8] + s.skip(1)
    } else {
        s
    }
}

fn safe_name_bytes(v: &Vec<u8>) -> (r: Vec<u8>)
    ensures
        r@ == spec_safe_name(v@),
    decreases v@.len(),
{
    if v.len() == 0 {
        return Vec::new();
    }
    let b0 = v[0];
    if (48 <= b0 && b0 <= 57) || (65 <= b0 && b0 <= 90) || (97 <= b0 && b0 <= 122) {
        let rest = subvec(v, 1, v.len());
        proof {
            assert(rest@ =~= v@.skip(1));
        }
        let mut r = vec![b0];
        assert(r@ =~= seq![v@[0]]);
        let mut tail = safe_name_bytes(&rest);
        r.append(&mut tail);
        r
    } else {
        let (ok, w) = utf8_first_info(v);
        let step: usize = if ok {
            w
        } else {
            1
        };
        let rest = subvec(v, step, v.len());
        proof {
            assert(rest@ =~= v@.skip(step as int));
        }
        let mut r = vec![95u8];
        assert(r@ =~= seq![95u8]);
        let mut tail = safe_name_bytes(&rest);
        r.append(&mut tail);
        r
    }
}

/// Makes every header name safe for use as a variable or key: characters
/// that are not ASCII letters or digits become underscores, and, when
/// asked, a leading digit becomes an underscore too.
pub fn safe_header_names(headers: &Vec<Vec<u8>>, check_first_char: bool) -> (r: Vec<Vec<u8>>)
    ensures
        views(r@) == views(headers@).map_values(
            |h: Seq<u8>|
                if check_first_char {
                    spec_safe_first(spec_safe_name(h))
                } else {
                    spec_safe_name(h)
                },
        ),
{
    let ghost target = views(headers@).map_values(
        |h: Seq<u8>|
            if check_first_char {
                spec_safe_first(spec_safe_name(h))
            } else {
                spec_safe_name(h)
            },
    );
    let mut out: Vec<Vec<u8>> = Vec::new();
    let mut i: usize = 0;
    while i < headers.len()
        invariant
            i <= headers@.len(),
            target == views(headers@).map_values(
                |h: Seq<u8>|
                    if check_first_char {
                        spec_safe_first(spec_safe_name(h))
                    } else {
                        spec_safe_name(h)
                    },
            ),
            views(out@) == target.subrange(0, i as int),
        decreases headers.len() - i,
    {
        let mut name = safe_name_bytes(&headers[i]);
        if check_first_char && name.len() > 0 && 48 <= name[0] && name[0] <= 57 {
            let ghost before = name@;
            name.set(0, 95);
            proof {
                assert(name@ =~= seq![95u8] + before.skip(1));
            }
        }
        out.push(name);
        i += 1;
        proof {
            assert(views(out@) =~= target.subrange(0, i as int));
        }
    }
    proof {
        assert(target.subrange(0, target.len() as int) =~= target);
    }
    out
}

} // verus!
