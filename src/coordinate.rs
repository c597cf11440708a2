use vstd::prelude::*;

verus! {

/// A decimal number as written in the document: `digits / 10^scale`,
/// negated where `negative` holds.
#[derive(Clone, Copy, Debug, PartialEq, Eq, Structural)]
pub struct Coordinate {
    pub negative: bool,
    pub digits: u64,
    pub scale: usize,
}

pub open spec fn is_digit(c: char) -> bool {
    '0' <= c && c <= '9'
}

pub open spec fn digit_value(c: char) -> nat {
    (c as u32 - '0' as u32) as nat
}

/// A numeral without its sign: digits with at most one decimal point.
/// Gives the value of all its digits read as one integer, how many digits
/// follow the point, and whether the point was seen; `None` where a character
/// is neither a digit nor the first point, or where the value leaves `u64`.
pub open spec fn numeral(t: Seq<char>) -> Option<(nat, nat, bool)>
    decreases t.len(),
{
    if t.len() == 0 {
        Some((0, 0, false))
    } else {
        match numeral(t.drop_last()) {
            None => None,
            Some((v, sc, dot)) => {
                let c = t.last();
                if is_digit(c) {
                    let w = v * 10 + digit_value(c);
                    if w <= u64::MAX {
                        Some((w, if dot { sc + 1 } else { sc }, dot))
                    } else {
                        None
                    }
                } else if c == '.' && !dot {
                    Some((v, sc, true))
                } else {
                    None
                }
            },
        }
    }
}

pub open spec fn sign_len(s: Seq<char>) -> nat {
    if s.len() > 0 && (s[0] == '-' || s[0] == '+') {
        1
    } else {
        0
    }
}

/// The coordinate that a text denotes: an optional sign, then a numeral
/// with at least one digit.
pub open spec fn coordinate_of(s: Seq<char>) -> Option<Coordinate> {
    let body = s.skip(sign_len(s) as int);
    match numeral(body) {
        Some((v, sc, dot)) => if body.len() > (if dot { 1nat } else { 0nat }) && sc <= usize::MAX {
            Some(Coordinate { negative: sign_len(s) == 1 && s[0] == '-', digits: v as u64, scale: sc as usize })
        } else {
            None
        },
        None => None,
    }
}

impl Coordinate {
    /// Reads a coordinate from its text; `None` where the text is no such
    /// decimal numeral.
    pub fn parse(s: &[char]) -> (r: Option<Coordinate>)
        ensures
            r == coordinate_of(s@),
    {
        let n = s.len();
        let k: usize = if n > 0 && (s[0] == '-' || s[0] == '+') { 1 } else { 0 };
        let ghost body = s@.skip(k as int);
        let mut i: usize = k;
        let mut v: u64 = 0;
        let mut sc: usize = 0;
        let mut dot = false;
        assert(body.take(0) =~= Seq::<char>::empty());
        while i < n
            invariant
                k <= i <= n,
                n == s@.len(),
                body == s@.skip(k as int),
                k == sign_len(s@),
                sc <= i,
                numeral(body.take(i - k)) == Some((v as nat, sc as nat, dot)),
            decreases n - i,
        {
            let c = s[i];
            let ghost t = body.take(i + 1 - k);
            assert(t.drop_last() =~= body.take(i - k));
            assert(t.last() == c);
            if '0' <= c && c <= '9' {
                let d = (c as u32 - '0' as u32) as u64;
                if v > (u64::MAX - d) / 10 {
                    assert(v * 10 + d > u64::MAX) by (nonlinear_arith)
                        requires v > (u64::MAX - d) / 10, d <= 9;
                    assert(numeral(t).is_none());
                    assert(body =~= body.take(i + 1 - k) + body.skip(i + 1 - k));
                    proof { lemma_numeral_none_extends(t, body); }
                    return None;
                }
                assert(v * 10 + d <= u64::MAX) by (nonlinear_arith)
                    requires v <= (u64::MAX - d) / 10, d <= 9;
                v = v * 10 + d;
                if dot {
                    sc = sc + 1;
                }
            } else if c == '.' && !dot {
                dot = true;
            } else {
                assert(numeral(t).is_none());
                proof { lemma_numeral_none_extends(t, body); }
                return None;
            }
            i = i + 1;
        }
        assert(body.take(n - k) =~= body);
        if n - k > (if dot { 1 } else { 0 }) {
            Some(Coordinate { negative: k == 1 && s[0] == '-', digits: v, scale: sc })
        } else {
            None
        }
    }
}

/// A numeral that fails on a prefix fails on every extension of it.
proof fn lemma_numeral_none_extends(t: Seq<char>, u: Seq<char>)
    requires
        numeral(t).is_none(),
        t.len() <= u.len(),
        t =~= u.take(t.len() as int),
    ensures
        numeral(u).is_none(),
    decreases u.len() - t.len(),
{
    if u.len() > t.len() {
        let w = u.take(t.len() as int + 1);
        assert(w.drop_last() =~= t);
        assert(w =~= u.take(w.len() as int));
        lemma_numeral_none_extends(w, u);
    } else {
        assert(t =~= u);
    }
}

} // verus!
