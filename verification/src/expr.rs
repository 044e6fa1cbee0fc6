//! Symbolic parameter preprocessing: normalizing an expression's
//! notation before numeric evaluation. The power operator written as a
//! double asterisk becomes the evaluator's caret operator, and the
//! symbolic constant name for π becomes a zero-argument call, so an
//! arithmetic grammar without that bare constant resolves it to π.
//! Expressions are handled as ASCII bytes.

use vstd::prelude::*;

verus! {

/// Left-to-right, non-overlapping replacement of `pat` by `rep`: at
/// each position, if `pat` starts there it is replaced and scanning
/// resumes after the occurrence (the replacement text is never
/// rescanned); otherwise one byte is kept.
pub open spec fn replace_bytes(s: Seq<u8>, pat: Seq<u8>, rep: Seq<u8>) -> Seq<u8>
    decreases s.len(),
{
    if s.len() == 0 {
        seq![]
    } else if 0 < pat.len() <= s.len() && s.take(pat.len() as int) == pat {
        rep + replace_bytes(s.skip(pat.len() as int), pat, rep)
    } else {
        seq![s[0]] + replace_bytes(s.skip(1), pat, rep)
    }
}

/// The bytes of the power operator as written in the input format: `**`.
pub open spec fn pow_token() -> Seq<u8> {
    seq![42u8, 42u8]
}

/// The byte of the evaluator's power operator: `^`.
pub open spec fn caret_token() -> Seq<u8> {
    seq![94u8]
}

/// The bytes of the symbolic constant name for π: `pi`.
pub open spec fn pi_token() -> Seq<u8> {
    seq![112u8, 105u8]
}

/// The bytes of the zero-argument π call: `pi()`.
pub open spec fn pi_call_token() -> Seq<u8> {
    seq![112u8, 105u8, 40u8, 41u8]
}

/// The full notational rewrite applied to a parameter expression before
/// evaluation: first every `**` becomes `^`, then every `pi` becomes
/// `pi()`.
pub open spec fn rewritten(s: Seq<u8>) -> Seq<u8> {
    replace_bytes(replace_bytes(s, pow_token(), caret_token()), pi_token(), pi_call_token())
}

/// Whether `pat` occurs at position `i` of `s`.
fn match_at(s: &Vec<u8>, i: usize, pat: &Vec<u8>) -> (r: bool)
    requires
        i + pat@.len() <= s@.len(),
    ensures
        r == (s@.skip(i as int).take(pat@.len() as int) == pat@),
{
    let ghost window = s@.skip(i as int).take(pat@.len() as int);
    proof {
        assert(s.len() == s@.len());
    }
    let mut t: usize = 0;
    while t < pat.len()
        invariant
            i + pat@.len() <= s@.len(),
            s@.len() <= usize::MAX,
            t <= pat@.len(),
            window == s@.skip(i as int).take(pat@.len() as int),
            forall|m: int| 0 <= m < t ==> s@[i + m] == pat@[m],
        decreases pat@.len() - t,
    {
        if s[i + t] != pat[t] {
            proof {
                assert(window[t as int] == s@[i + t]);
            }
            return false;
        }
        t += 1;
    }
    proof {
        assert(window =~= pat@);
    }
    true
}

/// Replace every occurrence of `pat` in `s` by `rep`, scanning left to
/// right without rescanning replacements.
pub fn replace(s: &Vec<u8>, pat: &Vec<u8>, rep: &Vec<u8>) -> (r: Vec<u8>)
    requires
        pat@.len() > 0,
    ensures
        r@ == replace_bytes(s@, pat@, rep@),
{
    let mut out: Vec<u8> = Vec::new();
    proof {
        assert(s@.skip(0) =~= s@);
        assert(Seq::<u8>::empty() + replace_bytes(s@, pat@, rep@) =~= replace_bytes(
            s@,
            pat@,
            rep@,
        ));
    }
    let mut i: usize = 0;
    while i < s.len()
        invariant
            pat@.len() > 0,
            i <= s@.len(),
            replace_bytes(s@, pat@, rep@) == out@ + replace_bytes(
                s@.skip(i as int),
                pat@,
                rep@,
            ),
        decreases s@.len() - i,
    {
        let ghost rest = s@.skip(i as int);
        let here = if s.len() - i >= pat.len() {
            match_at(s, i, pat)
        } else {
            false
        };
        if here {
            let ghost out0 = out@;
            let mut t: usize = 0;
            while t < rep.len()
                invariant
                    t <= rep@.len(),
                    out@ == out0 + rep@.take(t as int),
                decreases rep@.len() - t,
            {
                proof {
                    assert(out0 + rep@.take(t + 1 as int) =~= (out0 + rep@.take(t as int)).push(
                        rep@[t as int],
                    ));
                }
                out.push(rep[t]);
                t += 1;
            }
            proof {
                assert(rest.take(pat@.len() as int) == s@.skip(i as int).take(pat@.len() as int));
                assert(replace_bytes(rest, pat@, rep@) == rep@ + replace_bytes(
                    rest.skip(pat@.len() as int),
                    pat@,
                    rep@,
                ));
                assert(rest.skip(pat@.len() as int) =~= s@.skip(i + pat@.len()));
                assert(rep@.take(rep@.len() as int) =~= rep@);
                assert((out0 + rep@) + replace_bytes(s@.skip(i + pat@.len()), pat@, rep@) =~= out0
                    + (rep@ + replace_bytes(s@.skip(i + pat@.len()), pat@, rep@)));
            }
            i += pat.len();
        } else {
            proof {
                assert(rest.len() > 0);
                assert(rest[0] == s@[i as int]);
                assert(replace_bytes(rest, pat@, rep@) == seq![rest[0]] + replace_bytes(
                    rest.skip(1),
                    pat@,
                    rep@,
                ));
                assert(rest.skip(1) =~= s@.skip(i + 1));
                assert(out@.push(s@[i as int]) + replace_bytes(s@.skip(i + 1), pat@, rep@) =~= out@
                    + (seq![s@[i as int]] + replace_bytes(s@.skip(i + 1), pat@, rep@)));
            }
            out.push(s[i]);
            i += 1;
        }
    }
    proof {
        assert(s@.skip(s@.len() as int) =~= Seq::<u8>::empty());
        assert(replace_bytes(Seq::<u8>::empty(), pat@, rep@) == Seq::<u8>::empty());
        assert(out@ + Seq::<u8>::empty() =~= out@);
    }
    out
}

/// Rewrite one symbolic parameter expression into the evaluator's
/// notation: `**` becomes `^`, then `pi` becomes `pi()`.
pub fn preprocess_param(s: &Vec<u8>) -> (r: Vec<u8>)
    ensures
        r@ == rewritten(s@),
{
    let mut pow_from: Vec<u8> = Vec::new();
    pow_from.push(42u8);
    pow_from.push(42u8);
    let mut caret_to: Vec<u8> = Vec::new();
    caret_to.push(94u8);
    let mut pi_from: Vec<u8> = Vec::new();
    pi_from.push(112u8);
    pi_from.push(105u8);
    let mut pi_to: Vec<u8> = Vec::new();
    pi_to.push(112u8);
    pi_to.push(105u8);
    pi_to.push(40u8);
    pi_to.push(41u8);
    proof {
        assert(pow_from@ =~= pow_token());
        assert(caret_to@ =~= caret_token());
        assert(pi_from@ =~= pi_token());
        assert(pi_to@ =~= pi_call_token());
    }
    let step = replace(s, &pow_from, &caret_to);
    replace(&step, &pi_from, &pi_to)
}

} // verus!
