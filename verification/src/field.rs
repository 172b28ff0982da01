//! One fingerprint field: a dash-separated list of decimal codes.

use vstd::prelude::*;
use crate::codes::Code;
use crate::decimal::{
    dec_digits, dec_val, is_dec_token, is_digit, lemma_dec_digits_ok, parse_code, render_u16,
};
use crate::text::{lemma_first_index_is, scan_for, split_all};

verus! {

/// The value a token denotes under `max`, or nothing when the token is
/// malformed or out of range.
pub open spec fn token_val(t: Seq<char>, max: int) -> Option<int> {
    if is_dec_token(t) && dec_val(t) <= max {
        Some(dec_val(t))
    } else {
        None
    }
}

/// The values of a list of tokens; nothing as soon as one token fails.
pub open spec fn token_vals(ts: Seq<Seq<char>>, max: int) -> Option<Seq<int>>
    decreases ts.len(),
{
    if ts.len() == 0 {
        Some(Seq::<int>::empty())
    } else {
        match (token_val(ts[0], max), token_vals(ts.drop_first(), max)) {
            (Some(v), Some(r)) => Some(seq![v] + r),
            _ => None,
        }
    }
}

/// The parse of one raw field: the empty field is the empty sequence;
/// otherwise every dash-separated token must be a decimal code at most
/// `max`.
pub open spec fn spec_parse_field(s: Seq<char>, max: int) -> Option<Seq<int>> {
    if s.len() == 0 {
        Some(Seq::<int>::empty())
    } else {
        token_vals(split_all(s, '-'), max)
    }
}

/// The rendering of one field: the codes in decimal, joined with dashes;
/// an empty sequence renders as the empty string.
pub open spec fn spec_render_field(vs: Seq<int>) -> Seq<char>
    decreases vs.len(),
{
    if vs.len() == 0 {
        Seq::<char>::empty()
    } else if vs.len() == 1 {
        dec_digits(vs[0])
    } else {
        dec_digits(vs[0]) + seq!['-'] + spec_render_field(vs.drop_first())
    }
}

/// The codes a sequence of symbolic values stands for.
pub open spec fn field_vals<C: Code>(s: Seq<C>) -> Seq<int> {
    s.map_values(|c: C| c.spec_val())
}

/// Prepending parsed values to an optional tail of values.
pub open spec fn vals_cat(a: Seq<int>, b: Option<Seq<int>>) -> Option<Seq<int>> {
    match b {
        Some(t) => Some(a + t),
        None => None,
    }
}

/// Parse one raw field into symbolic codes.  Succeeds exactly when the
/// specification parse does, and returns exactly its values.
pub fn parse_field<C: Code>(s: &str) -> (r: Option<Vec<C>>)
    ensures
        match spec_parse_field(s@, C::spec_max()) {
            Some(vs) => r matches Some(out) && field_vals(out@) == vs,
            None => r is None,
        },
{
    let ghost max = C::spec_max();
    let n = s.unicode_len();
    if n == 0 {
        let out: Vec<C> = Vec::new();
        assert(field_vals(out@) =~= Seq::<int>::empty());
        return Some(out);
    }
    let max_val = C::max_val();
    let mut out: Vec<C> = Vec::new();
    let mut pos: usize = 0;
    proof {
        assert(s@.skip(0) =~= s@);
        assert(field_vals(out@) =~= Seq::<int>::empty());
        match token_vals(split_all(s@, '-'), max) {
            Some(vs) => {
                assert(Seq::<int>::empty() + vs =~= vs);
            },
            None => {},
        }
    }
    loop
        invariant
            0 < n == s@.len(),
            pos <= n,
            max == C::spec_max(),
            max_val as int == max,
            0 < max <= 0xFFFF,
            token_vals(split_all(s@, '-'), max) == vals_cat(
                field_vals(out@),
                token_vals(split_all(s@.skip(pos as int), '-'), max),
            ),
        decreases n - pos,
    {
        let ghost tail = s@.skip(pos as int);
        let i = scan_for(s, '-', pos);
        proof {
            assert forall|j: int| 0 <= j < i - pos implies tail[j] != '-' by {
                assert(tail[j] == s@[pos + j]);
            }
            lemma_first_index_is(tail, '-', i - pos);
        }
        let tok = s.substring_char(pos, i);
        let ghost ts = split_all(tail, '-');
        proof {
            assert(tok@ =~= tail.take(i - pos));
            if i == n {
                assert(tok@ =~= tail);
                assert(ts == seq![tail]);
                assert(ts.drop_first() =~= Seq::<Seq<char>>::empty());
                assert(token_vals(Seq::<Seq<char>>::empty(), max) == Some(Seq::<int>::empty()));
            } else {
                assert(tail.skip((i - pos) as int + 1) =~= s@.skip(i as int + 1));
                assert(ts == seq![tail.take((i - pos) as int)] + split_all(
                    s@.skip(i as int + 1),
                    '-',
                ));
                assert(ts[0] == tok@);
                assert(ts.drop_first() =~= split_all(s@.skip(i as int + 1), '-'));
            }
        }
        match parse_code(tok, max_val) {
            None => {
                proof {
                    assert(token_val(ts[0], max) is None);
                    assert(token_vals(ts, max) is None);
                }
                return None;
            },
            Some(v) => {
                let ghost prev = field_vals(out@);
                let c = C::of_val(v);
                out.push(c);
                proof {
                    assert(field_vals(out@) =~= prev.push(v as int));
                    assert(token_val(ts[0], max) == Some(v as int));
                }
                if i == n {
                    proof {
                        assert(token_vals(ts, max) == Some(seq![v as int] + Seq::<int>::empty()));
                        assert(prev + (seq![v as int] + Seq::<int>::empty()) =~= field_vals(out@));
                    }
                    return Some(out);
                }
                proof {
                    match token_vals(split_all(s@.skip(i as int + 1), '-'), max) {
                        Some(rest) => {
                            assert(token_vals(ts, max) == Some(seq![v as int] + rest));
                            assert(prev + (seq![v as int] + rest) =~= field_vals(out@) + rest);
                        },
                        None => {
                            assert(token_vals(ts, max) is None);
                        },
                    }
                }
                pos = i + 1;
            },
        }
    }
}

/// Render a sequence of symbolic codes as one field.
pub fn render_field<C: Code>(v: &Vec<C>) -> (t: String)
    ensures
        t@ == spec_render_field(field_vals(v@)),
{
    let mut t = String::new();
    let mut i: usize = 0;
    while i < v.len()
        invariant
            i <= v@.len(),
            t@ == spec_render_field(field_vals(v@).take(i as int)),
        decreases v@.len() - i,
    {
        proof {
            reveal_strlit("-");
        }
        if i > 0 {
            t.append("-");
        }
        let d = render_u16(v[i].val());
        t.append(d.as_str());
        proof {
            let vs = field_vals(v@);
            assert(vs.take(i + 1) =~= vs.take(i as int).push(vs[i as int]));
            lemma_render_field_push(vs.take(i as int), vs[i as int]);
            assert(("-")@ =~= seq!['-']);
            if i > 0 {
                assert(t@ =~= spec_render_field(vs.take(i as int)) + seq!['-'] + dec_digits(
                    vs[i as int],
                ));
            } else {
                assert(t@ =~= dec_digits(vs[i as int]));
            }
        }
        i += 1;
    }
    assert(field_vals(v@).take(v@.len() as int) =~= field_vals(v@));
    t
}

/// Appending one code to a field puts one dash and its digits at the end
/// of the rendering (no dash when the field was empty).
pub proof fn lemma_render_field_push(vs: Seq<int>, v: int)
    ensures
        spec_render_field(vs.push(v)) == if vs.len() == 0 {
            dec_digits(v)
        } else {
            spec_render_field(vs) + seq!['-'] + dec_digits(v)
        },
    decreases vs.len(),
{
    let w = vs.push(v);
    if vs.len() == 0 {
        assert(w.len() == 1 && w[0] == v);
    } else {
        assert(w[0] == vs[0]);
        assert(w.drop_first() =~= vs.drop_first().push(v));
        lemma_render_field_push(vs.drop_first(), v);
        if vs.len() == 1 {
            assert(spec_render_field(vs) == dec_digits(vs[0]));
        } else {
            assert((spec_render_field(vs.drop_first()) + seq!['-'] + dec_digits(v)).len() >= 0);
            assert(dec_digits(w[0]) + seq!['-'] + (spec_render_field(vs.drop_first()) + seq!['-']
                + dec_digits(v)) =~= (dec_digits(vs[0]) + seq!['-'] + spec_render_field(
                vs.drop_first(),
            )) + seq!['-'] + dec_digits(v));
        }
    }
}

/// Every character of a rendered field is a digit or a dash.
pub open spec fn digits_or_dashes(s: Seq<char>) -> bool {
    forall|i: int| 0 <= i < s.len() ==> is_digit(#[trigger] s[i]) || s[i] == '-'
}

/// A rendered nonempty field is nonempty text of digits and dashes, and
/// parsing its tokens gives back exactly the codes.  The empty field is
/// handled by `spec_parse_field` directly.
pub proof fn lemma_tokens_of_render(vs: Seq<int>, max: int)
    requires
        vs.len() >= 1,
        forall|i: int| 0 <= i < vs.len() ==> 0 <= #[trigger] vs[i] <= max,
    ensures
        spec_render_field(vs).len() > 0,
        digits_or_dashes(spec_render_field(vs)),
        token_vals(split_all(spec_render_field(vs), '-'), max) == Some(vs),
    decreases vs.len(),
{
    let t = spec_render_field(vs);
    lemma_dec_digits_ok(vs[0]);
    let d0 = dec_digits(vs[0]);
    if vs.len() == 1 {
        assert(t == d0);
        lemma_first_index_is(t, '-', t.len() as int);
        assert(split_all(t, '-') == seq![t]);
        assert(split_all(t, '-').drop_first() =~= Seq::<Seq<char>>::empty());
        assert(token_vals(Seq::<Seq<char>>::empty(), max) == Some(Seq::<int>::empty()));
        assert(token_vals(split_all(t, '-'), max) == Some(seq![vs[0]] + Seq::<int>::empty()));
        assert(seq![vs[0]] + Seq::<int>::empty() =~= vs);
    } else {
        let rest = vs.drop_first();
        lemma_tokens_of_render(rest, max);
        let tr = spec_render_field(rest);
        assert(t == d0 + seq!['-'] + tr);
        assert forall|j: int| 0 <= j < d0.len() implies t[j] != '-' by {
            assert(t[j] == d0[j]);
            assert(is_digit(d0[j]));
        }
        assert(t[d0.len() as int] == '-');
        lemma_first_index_is(t, '-', d0.len() as int);
        assert(t.take(d0.len() as int) =~= d0);
        assert(t.skip(d0.len() as int + 1) =~= tr);
        assert(split_all(t, '-') == seq![d0] + split_all(tr, '-'));
        assert(split_all(t, '-').drop_first() =~= split_all(tr, '-'));
        assert(split_all(t, '-')[0] == d0);
        assert(token_vals(split_all(t, '-'), max) == Some(seq![vs[0]] + rest));
        assert(seq![vs[0]] + rest =~= vs);
        assert forall|j: int| 0 <= j < t.len() implies is_digit(#[trigger] t[j]) || t[j] == '-' by {
            if j < d0.len() {
                assert(t[j] == d0[j]);
            } else if j > d0.len() {
                assert(t[j] == tr[j - d0.len() - 1]);
            }
        }
    }
}

/// Parsing a rendered field gives back exactly the codes, when every code
/// fits the field's width.
pub proof fn lemma_parse_render_field(vs: Seq<int>, max: int)
    requires
        forall|i: int| 0 <= i < vs.len() ==> 0 <= #[trigger] vs[i] <= max,
    ensures
        spec_parse_field(spec_render_field(vs), max) == Some(vs),
{
    if vs.len() == 0 {
        assert(spec_render_field(vs).len() == 0);
        assert(vs =~= Seq::<int>::empty());
    } else {
        lemma_tokens_of_render(vs, max);
    }
}

} // verus!
