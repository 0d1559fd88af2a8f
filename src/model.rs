//! The stored model: two lines, the column labels and then the two fitted
//! parameters, each pair separated by one space.
//!
//! ```text
//! <label_x> <label_y>
//! <theta0> <theta1>
//! ```
//!
//! The parameters are carried as the decimal text of the numbers; writing a
//! number as text and reading it back is left to the caller.
use vstd::prelude::*;

use crate::error::TrainError;
use crate::text::{
    chars_of,
    find_char,
    find_spec,
    first_at,
    is_white,
    lemma_pieces_found,
    lemma_pieces_none,
    pieces,
    solid_end,
    solid_start,
    string_of,
    trim_spec,
    two_fields,
};

verus! {

/// The text that stores labels `a`, `b` and parameter texts `c`, `d`.
pub open spec fn model_text(a: Seq<char>, b: Seq<char>, c: Seq<char>, d: Seq<char>) -> Seq<char> {
    a + seq![' '] + b + seq!['\n'] + c + seq![' '] + d + seq!['\n']
}

/// What reading a stored model gives: the two labels and the two parameter
/// texts, each trimmed, or the index of the first of the two lines that is
/// missing or has fewer than two fields.
pub open spec fn model_spec(text: Seq<char>) -> Result<
    (Seq<char>, Seq<char>, Seq<char>, Seq<char>),
    nat,
> {
    let ls = pieces(text, '\n');
    let first_fields = pieces(ls[0], ' ');
    if first_fields.len() < 2 {
        Err(0)
    } else if ls.len() < 2 || pieces(ls[1], ' ').len() < 2 {
        Err(1)
    } else {
        let second_fields = pieces(ls[1], ' ');
        Ok((trim_spec(first_fields[0]), trim_spec(first_fields[1]), trim_spec(second_fields[0]), trim_spec(second_fields[1])))
    }
}

/// The labels and parameter texts of a stored model.
pub struct ModelText {
    /// The labels of the input column and of the estimated column.
    pub labels: [String; 2],
    /// The texts of the intercept and of the slope.
    pub theta: [String; 2],
}

/// Writes labels and parameter texts in the stored form.
pub fn render_model(labels: &[String; 2], theta: &[String; 2]) -> (r: String)
    ensures
        r@ == model_text(labels@[0]@, labels@[1]@, theta@[0]@, theta@[1]@),
{
    let mut r = labels[0].clone();
    r.append(" ");
    r.append(labels[1].as_str());
    r.append("\n");
    r.append(theta[0].as_str());
    r.append(" ");
    r.append(theta[1].as_str());
    r.append("\n");
    proof {
        reveal_strlit(" ");
        reveal_strlit("\n");
        assert(r@ =~= model_text(labels@[0]@, labels@[1]@, theta@[0]@, theta@[1]@));
    }
    r
}

/// Reads a stored model. Lines are separated by `'\n'` and fields by single
/// spaces; each field is trimmed, and fields after the second are ignored.
/// Fails with the index of the first line that is missing or has fewer than
/// two fields.
pub fn parse_model(text: &str) -> (r: Result<ModelText, TrainError>)
    ensures
        match model_spec(text@) {
            Ok((a, b, c, d)) => r is Ok && r->Ok_0.labels@[0]@ == a && r->Ok_0.labels@[1]@ == b
                && r->Ok_0.theta@[0]@ == c && r->Ok_0.theta@[1]@ == d,
            Err(l) => r is Err && r->Err_0 == (TrainError::MissingField { line: l as usize }),
        },
{
    let cs = chars_of(text);
    let n = cs.len();
    let ghost s = cs@;
    let ghost ls = pieces(s, '\n');
    proof {
        assert(cs@.subrange(0, n as int) =~= s);
    }
    let first = find_char(&cs, 0, n, '\n');
    let end0 = match first {
        Some(p) => p,
        None => n,
    };
    proof {
        match first {
            Some(p) => {
                lemma_pieces_found(s, '\n', p as int);
                assert(s.take(p as int) =~= cs@.subrange(0, p as int));
            },
            None => {
                lemma_pieces_none(s, '\n');
            },
        }
        assert(ls[0] == cs@.subrange(0, end0 as int));
    }
    let f0 = match two_fields(&cs, 0, end0, ' ') {
        Some(f) => f,
        None => {
            return Err(TrainError::MissingField { line: 0 });
        },
    };
    let p = match first {
        Some(p) => p,
        None => {
            return Err(TrainError::MissingField { line: 1 });
        },
    };
    let ghost rest = s.skip(p + 1);
    proof {
        assert(cs@.subrange(p + 1, n as int) =~= rest);
        assert(ls[1] == pieces(rest, '\n')[0]);
    }
    let second = find_char(&cs, p + 1, n, '\n');
    let end1 = match second {
        Some(q) => q,
        None => n,
    };
    proof {
        match second {
            Some(q) => {
                lemma_pieces_found(rest, '\n', q - (p + 1));
                assert(rest.take(q - (p + 1)) =~= cs@.subrange(p + 1, q as int));
            },
            None => {
                lemma_pieces_none(rest, '\n');
            },
        }
        assert(ls[1] == cs@.subrange(p + 1, end1 as int));
    }
    let f1 = match two_fields(&cs, p + 1, end1, ' ') {
        Some(f) => f,
        None => {
            return Err(TrainError::MissingField { line: 1 });
        },
    };
    let labels = [string_of(&cs, f0.0.0, f0.0.1), string_of(&cs, f0.1.0, f0.1.1)];
    let theta = [string_of(&cs, f1.0.0, f1.0.1), string_of(&cs, f1.1.0, f1.1.1)];
    Ok(ModelText { labels, theta })
}

/// A text with no white space in it, such as a label or the decimal text of
/// a finite number.
pub open spec fn is_solid(s: Seq<char>) -> bool {
    forall|i: int| 0 <= i < s.len() ==> !is_white(#[trigger] s[i])
}

proof fn lemma_find_at(s: Seq<char>, c: char, p: int)
    requires
        first_at(s, c, p),
    ensures
        find_spec(s, c) == Some(p),
{
    let q = choose|q: int| first_at(s, c, q);
    assert(q == p);
}

proof fn lemma_find_none(s: Seq<char>, c: char)
    requires
        forall|i: int| 0 <= i < s.len() ==> s[i] != c,
    ensures
        find_spec(s, c) is None,
{
}

proof fn lemma_trim_solid(s: Seq<char>)
    requires
        is_solid(s),
    ensures
        trim_spec(s) == s,
{
    if s.len() > 0 {
        assert(solid_start(s, 0));
        assert(solid_end(s, s.len() as int));
        let i = choose|i: int| solid_start(s, i);
        let e = choose|e: int| solid_end(s, e);
        assert(i == 0);
        assert(e == s.len());
        assert(s.subrange(0, s.len() as int) =~= s);
    } else {
        assert(!exists|i: int| solid_start(s, i));
        assert(s =~= Seq::<char>::empty());
    }
}

/// The pieces of `a + ' ' + b` split at spaces, for solid `a` and `b`.
proof fn lemma_pair_pieces(a: Seq<char>, b: Seq<char>)
    requires
        is_solid(a),
        is_solid(b),
    ensures
        pieces(a + seq![' '] + b, ' ') == seq![a, b],
{
    let s = a + seq![' '] + b;
    assert(is_white(' '));
    assert(first_at(s, ' ', a.len() as int));
    lemma_find_at(s, ' ', a.len() as int);
    lemma_pieces_found(s, ' ', a.len() as int);
    assert(s.take(a.len() as int) =~= a);
    assert(s.skip(a.len() as int + 1) =~= b);
    lemma_find_none(b, ' ');
    lemma_pieces_none(b, ' ');
    assert(pieces(s, ' ') =~= seq![a, b]);
}

/// Reading back what was stored gives the same labels and parameter texts,
/// for labels and texts that are free of white space.
pub proof fn lemma_model_round_trip(a: Seq<char>, b: Seq<char>, c: Seq<char>, d: Seq<char>)
    requires
        is_solid(a),
        is_solid(b),
        is_solid(c),
        is_solid(d),
    ensures
        model_spec(model_text(a, b, c, d)) == Ok::<_, nat>((a, b, c, d)),
{
    let l0 = a + seq![' '] + b;
    let l1 = c + seq![' '] + d;
    let t = model_text(a, b, c, d);
    assert(is_white('\n'));
    assert(is_white(' '));
    assert(t =~= l0 + seq!['\n'] + (l1 + seq!['\n']));
    assert(first_at(t, '\n', l0.len() as int));
    lemma_find_at(t, '\n', l0.len() as int);
    lemma_pieces_found(t, '\n', l0.len() as int);
    assert(t.take(l0.len() as int) =~= l0);
    let r = t.skip(l0.len() as int + 1);
    assert(r =~= l1 + seq!['\n']);
    assert(first_at(r, '\n', l1.len() as int));
    lemma_find_at(r, '\n', l1.len() as int);
    lemma_pieces_found(r, '\n', l1.len() as int);
    assert(r.take(l1.len() as int) =~= l1);
    let e = r.skip(l1.len() as int + 1);
    assert(e =~= Seq::<char>::empty());
    lemma_find_none(e, '\n');
    lemma_pieces_none(e, '\n');
    let ls = pieces(t, '\n');
    assert(ls =~= seq![l0, l1, e]);
    lemma_pair_pieces(a, b);
    lemma_pair_pieces(c, d);
    lemma_trim_solid(a);
    lemma_trim_solid(b);
    lemma_trim_solid(c);
    lemma_trim_solid(d);
}

} // verus!
