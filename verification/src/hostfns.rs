//! The two auxiliary host functions exposed to scripts: one composes a log
//! line from a severity and a list of values, the other picks the first
//! value whose string form is non-empty.  Only the pure composition lives
//! here; the registration with the evaluator is the session's concern.

use vstd::prelude::*;
use crate::text::{spec_dec_i64, spec_lower, to_lower_ascii, i64_to_dec, push_all};
use crate::value::{Scalar, SVal, txt_true, txt_false, txt_null, true_text, false_text, null_text};

verus! {

/// The log-line text of one scalar: an absent value reads `null`, the
/// other kinds read as in output fields.
pub open spec fn spec_log_text(v: SVal) -> Seq<u8> {
    match v {
        SVal::Nil => txt_null(),
        SVal::Bool(b) => if b {
            txt_true()
        } else {
            txt_false()
        },
        SVal::Int(i) => spec_dec_i64(i as int),
        SVal::Num { text, .. } => text,
        SVal::Str(s) => s,
        SVal::Other(d) => d,
    }
}

/// Renders one scalar for a log line.
pub fn scalar_log_text(v: &Scalar) -> (r: Vec<u8>)
    ensures
        r@ == spec_log_text(v@),
{
    match v {
        Scalar::Nil => null_text(),
        Scalar::Bool(b) => if *b {
            true_text()
        } else {
            false_text()
        },
        Scalar::Int(i) => i64_to_dec(*i),
        Scalar::Num { text, .. } => text.clone(),
        Scalar::Str(s) => s.clone(),
        Scalar::Other(d) => d.clone(),
    }
}

/// The coalescing choice: the first value whose log text is non-empty, or
/// empty text when every value is empty or absent.
pub open spec fn spec_coalesce(vals: Seq<SVal>) -> Seq<u8>
    decreases vals.len(),
{
    if vals.len() == 0 {
        Seq::empty()
    } else if spec_log_text(vals[0]).len() > 0 && !(vals[0] is Nil) {
        spec_log_text(vals[0])
    } else {
        spec_coalesce(vals.skip(1))
    }
}

/// Picks the first value whose string form is non-empty; an absent value
/// never qualifies.
pub fn coalesce_pick(vals: &Vec<Scalar>) -> (r: Vec<u8>)
    ensures
        r@ == spec_coalesce(vals@.map_values(|s: Scalar| s@)),
{
    let ghost svals = vals@.map_values(|s: Scalar| s@);
    proof {
        assert(svals.skip(0) =~= svals);
    }
    let mut j: usize = 0;
    while j < vals.len()
        invariant
            j <= vals@.len(),
            svals == vals@.map_values(|s: Scalar| s@),
            spec_coalesce(svals) == spec_coalesce(svals.skip(j as int)),
        decreases vals.len() - j,
    {
        proof {
            assert(svals[j as int] == vals@[j as int]@);
            assert(svals.skip(j as int)[0] == svals[j as int]);
            assert(svals.skip(j as int).skip(1) =~= svals.skip(j as int + 1));
        }
        let is_nil = match &vals[j] {
            Scalar::Nil => true,
            _ => false,
        };
        if !is_nil {
            let t = scalar_log_text(&vals[j]);
            if t.len() > 0 {
                return t;
            }
        }
        j += 1;
    }
    proof {
        assert(svals.skip(j as int) =~= Seq::<SVal>::empty());
    }
    Vec::new()
}

/// The recognized log severities.
pub open spec fn spec_known_severity(level: Seq<u8>) -> bool {
    level == seq![105u8, 110u8, 102u8, 111u8]  // info
    || level == seq![119u8, 97u8, 114u8, 110u8]  // warn
    || level == seq![101u8, 114u8, 114u8, 111u8, 114u8]  // error
    || level == seq![100u8, 101u8, 98u8, 117u8, 103u8]  // debug
    || level == seq![116u8, 114u8, 97u8, 99u8, 101u8]  // trace
}

/// `unknown log level: `
pub open spec fn txt_unknown_level() -> Seq<u8> {
    seq![
        117u8, 110u8, 107u8, 110u8, 111u8, 119u8, 110u8, 32u8, 108u8, 111u8, 103u8, 32u8, 108u8,
        101u8, 118u8, 101u8, 108u8, 58u8, 32u8,
    ]
}

/// ` msg: `
pub open spec fn txt_msg_sep() -> Seq<u8> {
    seq![32u8, 109u8, 115u8, 103u8, 58u8, 32u8]
}

/// The concatenation of all parts.
pub open spec fn spec_concat_all(parts: Seq<Seq<u8>>) -> Seq<u8>
    decreases parts.len(),
{
    if parts.len() == 0 {
        Seq::empty()
    } else {
        spec_concat_all(parts.drop_last()) + parts.last()
    }
}

/// The composed log line: for a recognized severity (after ASCII case
/// folding) the severity, a separator and the concatenated message; for any
/// other severity an informational line embedding the level name.
pub open spec fn spec_log_line(level: Seq<u8>, parts: Seq<Seq<u8>>) -> Seq<u8> {
    let lc = spec_lower(level);
    let msg = spec_concat_all(parts);
    if spec_known_severity(lc) {
        lc + seq![58u8, 32u8] + msg
    } else {
        seq![105u8, 110u8, 102u8, 111u8, 58u8, 32u8] + txt_unknown_level() + lc + txt_msg_sep()
            + msg
    }
}

/// Concatenates the stringified values of a log call into one line at the
/// requested severity.
pub fn compose_log_line(level: &Vec<u8>, parts: &Vec<Vec<u8>>) -> (line: Vec<u8>)
    ensures
        line@ == spec_log_line(level@, crate::text::views(parts@)),
{
    let ghost sparts = crate::text::views(parts@);
    let lc = to_lower_ascii(level);
    let mut msg: Vec<u8> = Vec::new();
    proof {
        assert(sparts.subrange(0, 0) =~= Seq::<Seq<u8>>::empty());
    }
    let mut j: usize = 0;
    while j < parts.len()
        invariant
            j <= parts@.len(),
            sparts == crate::text::views(parts@),
            msg@ == spec_concat_all(sparts.subrange(0, j as int)),
        decreases parts.len() - j,
    {
        push_all(&mut msg, &parts[j]);
        j += 1;
        proof {
            assert(sparts.subrange(0, j as int).drop_last() =~= sparts.subrange(0, j - 1));
            assert(sparts.subrange(0, j as int).last() == parts@[j - 1]@);
        }
    }
    proof {
        assert(sparts.subrange(0, sparts.len() as int) =~= sparts);
    }
    let known = is_known_severity(&lc);
    if known {
        let mut line = lc;
        let mut sep = vec![58u8, 32u8];
        assert(sep@ =~= seq![58u8, 32u8]);
        push_all(&mut line, &sep);
        push_all(&mut line, &msg);
        line
    } else {
        let mut line = vec![105u8, 110u8, 102u8, 111u8, 58u8, 32u8];
        assert(line@ =~= seq![105u8, 110u8, 102u8, 111u8, 58u8, 32u8]);
        let mut pre = vec![
            117u8, 110u8, 107u8, 110u8, 111u8, 119u8, 110u8, 32u8, 108u8, 111u8, 103u8, 32u8,
            108u8, 101u8, 118u8, 101u8, 108u8, 58u8, 32u8,
        ];
        assert(pre@ =~= txt_unknown_level());
        push_all(&mut line, &pre);
        push_all(&mut line, &lc);
        let mut sep = vec![32u8, 109u8, 115u8, 103u8, 58u8, 32u8];
        assert(sep@ =~= txt_msg_sep());
        push_all(&mut line, &sep);
        push_all(&mut line, &msg);
        line
    }
}

/// Tests a lower-cased level against the recognized severities.
fn is_known_severity(level: &Vec<u8>) -> (r: bool)
    ensures
        r == spec_known_severity(level@),
{
    let mut info = vec![105u8, 110u8, 102u8, 111u8];
    let mut warn = vec![119u8, 97u8, 114u8, 110u8];
    let mut error = vec![101u8, 114u8, 114u8, 111u8, 114u8];
    let mut debug = vec![100u8, 101u8, 98u8, 117u8, 103u8];
    let mut trace = vec![116u8, 114u8, 97u8, 99u8, 101u8];
    assert(info@ =~= seq![105u8, 110u8, 102u8, 111u8]);
    assert(warn@ =~= seq![119u8, 97u8, 114u8, 110u8]);
    assert(error@ =~= seq![101u8, 114u8, 114u8, 111u8, 114u8]);
    assert(debug@ =~= seq![100u8, 101u8, 98u8, 117u8, 103u8]);
    assert(trace@ =~= seq![116u8, 114u8, 97u8, 99u8, 101u8]);
    let r = eq_bytes(level, &info) || eq_bytes(level, &warn) || eq_bytes(level, &error) || eq_bytes(
        level,
        &debug,
    ) || eq_bytes(level, &trace);
    r
}

/// Byte-wise equality of two texts.
pub fn eq_bytes(a: &Vec<u8>, b: &Vec<u8>) -> (r: bool)
    ensures
        r == (a@ == b@),
{
    if a.len() != b.len() {
        return false;
    }
    let n = a.len();
    let mut i: usize = 0;
    while i < n
        invariant
            i <= n,
            n == a@.len() == b@.len(),
            forall|k: int| 0 <= k < i ==> a@[k] == b@[k],
        decreases n - i,
    {
        if a[i] != b[i] {
            return false;
        }
        i += 1;
    }
    assert(a@ =~= b@);
    true
}

} // verus!
