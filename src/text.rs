//! Scanning text held as a vector of characters: finding a separator,
//! trimming white space, and cutting out a range as a `String`.
use vstd::prelude::*;

verus! {

/// The characters of the text, in order.
pub(crate) fn chars_of(text: &str) -> (cs: Vec<char>)
    ensures
        cs@ == text@,
{
    let mut cs: Vec<char> = Vec::new();
    for c in it: text.chars()
        invariant
            it.seq() == text@,
            cs@ == it.seq().take(it.index() as int),
    {
        proof {
            assert(cs@.push(c) =~= it.seq().take(it.index() + 1));
        }
        cs.push(c);
    }
    proof {
        assert(cs@ =~= text@);
    }
    cs
}

/// Relies on collecting characters into a `String`: the range
/// `from..to` of `cs`, as a string.
#[verifier::external_body]
pub(crate) fn string_of(cs: &Vec<char>, from: usize, to: usize) -> (s: String)
    requires
        from <= to <= cs@.len(),
    ensures
        s@ == cs@.subrange(from as int, to as int),
{
    cs[from..to].iter().collect()
}

/// White space as `char::is_whitespace` has it: the characters with the
/// Unicode `White_Space` property.
pub open spec fn is_white(c: char) -> bool {
    let u = c as u32;
    ||| 0x9 <= u <= 0xd
    ||| u == 0x20
    ||| u == 0x85
    ||| u == 0xa0
    ||| u == 0x1680
    ||| 0x2000 <= u <= 0x200a
    ||| u == 0x2028
    ||| u == 0x2029
    ||| u == 0x202f
    ||| u == 0x205f
    ||| u == 0x3000
}

pub fn white(c: char) -> (r: bool)
    ensures
        r == is_white(c),
{
    let u = c as u32;
    (0x9 <= u && u <= 0xd) || u == 0x20 || u == 0x85 || u == 0xa0 || u == 0x1680 || (0x2000 <= u
        && u <= 0x200a) || u == 0x2028 || u == 0x2029 || u == 0x202f || u == 0x205f || u == 0x3000
}

/// `p` is the position of the first `c` in `s`.
pub open spec fn first_at(s: Seq<char>, c: char, p: int) -> bool {
    &&& 0 <= p < s.len()
    &&& s[p] == c
    &&& forall|j: int| 0 <= j < p ==> s[j] != c
}

/// The position of the first `c` in `s`, if there is one.
pub open spec fn find_spec(s: Seq<char>, c: char) -> Option<int> {
    if exists|p: int| first_at(s, c, p) {
        Some(choose|p: int| first_at(s, c, p))
    } else {
        None
    }
}

/// `i` is the position of the first character of `s` that is not white.
pub open spec fn solid_start(s: Seq<char>, i: int) -> bool {
    &&& 0 <= i < s.len()
    &&& !is_white(s[i])
    &&& forall|j: int| 0 <= j < i ==> is_white(s[j])
}

/// `e` is one past the position of the last character of `s` that is not
/// white.
pub open spec fn solid_end(s: Seq<char>, e: int) -> bool {
    &&& 0 < e <= s.len()
    &&& !is_white(s[e - 1])
    &&& forall|j: int| e <= j < s.len() ==> is_white(s[j])
}

/// `s` without its leading and trailing white space, as `str::trim` gives it.
pub open spec fn trim_spec(s: Seq<char>) -> Seq<char> {
    if exists|i: int| solid_start(s, i) {
        s.subrange(
            choose|i: int| solid_start(s, i),
            choose|e: int| solid_end(s, e),
        )
    } else {
        Seq::empty()
    }
}

/// The position of the first `c` in the range `from..to` of `cs`.
pub fn find_char(cs: &Vec<char>, from: usize, to: usize, c: char) -> (r: Option<usize>)
    requires
        from <= to <= cs@.len(),
    ensures
        match r {
            None => find_spec(cs@.subrange(from as int, to as int), c) is None,
            Some(p) => from <= p < to && find_spec(cs@.subrange(from as int, to as int), c)
                == Some(p - from),
        },
{
    let ghost s = cs@.subrange(from as int, to as int);
    let mut i: usize = from;
    while i < to
        invariant
            from <= i <= to <= cs@.len(),
            s == cs@.subrange(from as int, to as int),
            forall|j: int| 0 <= j < i - from ==> s[j] != c,
        decreases to - i,
    {
        if cs[i] == c {
            proof {
                let p = i - from;
                assert(first_at(s, c, p));
                let q = choose|q: int| first_at(s, c, q);
                assert(q == p);
            }
            return Some(i);
        }
        i = i + 1;
    }
    proof {
        assert(!exists|p: int| first_at(s, c, p));
    }
    None
}

/// The range of `from..to` left after trimming white space at both ends.
pub fn trim_range(cs: &Vec<char>, from: usize, to: usize) -> (r: (usize, usize))
    requires
        from <= to <= cs@.len(),
    ensures
        from <= r.0 <= r.1 <= to,
        cs@.subrange(r.0 as int, r.1 as int) == trim_spec(cs@.subrange(from as int, to as int)),
{
    let ghost s = cs@.subrange(from as int, to as int);
    let mut a: usize = from;
    while a < to && white(cs[a])
        invariant
            from <= a <= to <= cs@.len(),
            s == cs@.subrange(from as int, to as int),
            forall|j: int| 0 <= j < a - from ==> is_white(s[j]),
        decreases to - a,
    {
        a = a + 1;
    }
    if a == to {
        proof {
            assert(!exists|i: int| solid_start(s, i));
            assert(cs@.subrange(a as int, a as int) =~= Seq::<char>::empty());
        }
        return (a, a);
    }
    let mut b: usize = to;
    while b > a && white(cs[b - 1])
        invariant
            from <= a < b <= to <= cs@.len(),
            !is_white(cs@[a as int]),
            s == cs@.subrange(from as int, to as int),
            forall|j: int| b - from <= j < s.len() ==> is_white(s[j]),
        decreases b - a,
    {
        b = b - 1;
    }
    proof {
        let i0 = a - from;
        let e0 = b - from;
        assert(solid_start(s, i0));
        assert(solid_end(s, e0));
        let i = choose|i: int| solid_start(s, i);
        let e = choose|e: int| solid_end(s, e);
        assert(i == i0);
        assert(e == e0);
        assert(cs@.subrange(a as int, b as int) =~= s.subrange(i0, e0));
    }
    (a, b)
}

/// The pieces of `s` between the occurrences of `c`, as `str::split` gives
/// them: one more piece than there are occurrences.
pub open spec fn pieces(s: Seq<char>, c: char) -> Seq<Seq<char>>
    decreases s.len(),
{
    if let Some(p) = find_spec(s, c) {
        if 0 <= p < s.len() {
            seq![s.take(p)] + pieces(s.skip(p + 1), c)
        } else {
            seq![s]
        }
    } else {
        seq![s]
    }
}

pub proof fn lemma_pieces_found(s: Seq<char>, c: char, p: int)
    requires
        find_spec(s, c) == Some(p),
        0 <= p < s.len(),
    ensures
        pieces(s, c) == seq![s.take(p)] + pieces(s.skip(p + 1), c),
{
}

pub proof fn lemma_pieces_none(s: Seq<char>, c: char)
    requires
        find_spec(s, c) is None,
    ensures
        pieces(s, c) == seq![s],
{
}

/// The trimmed ranges of the first two fields of the line `a..b`, split at
/// `sep`, or `None` when the line holds no `sep`.
pub fn two_fields(cs: &Vec<char>, a: usize, b: usize, sep: char) -> (r: Option<((usize, usize), (usize, usize))>)
    requires
        a <= b <= cs@.len(),
    ensures
        r is None <==> pieces(cs@.subrange(a as int, b as int), sep).len() < 2,
        r matches Some(f) ==> {
            let ps = pieces(cs@.subrange(a as int, b as int), sep);
            &&& f.0.0 <= f.0.1 <= cs@.len()
            &&& f.1.0 <= f.1.1 <= cs@.len()
            &&& cs@.subrange(f.0.0 as int, f.0.1 as int) == trim_spec(ps[0])
            &&& cs@.subrange(f.1.0 as int, f.1.1 as int) == trim_spec(ps[1])
        },
{
    let ghost line = cs@.subrange(a as int, b as int);
    match find_char(cs, a, b, sep) {
        None => {
            proof {
                lemma_pieces_none(line, sep);
            }
            None
        },
        Some(first_sep) => {
            proof {
                lemma_pieces_found(line, sep, first_sep - a);
                assert(line.take(first_sep - a) =~= cs@.subrange(a as int, first_sep as int));
                assert(line.skip(first_sep - a + 1) =~= cs@.subrange(first_sep + 1, b as int));
            }
            let ghost rest = cs@.subrange(first_sep + 1, b as int);
            let end = match find_char(cs, first_sep + 1, b, sep) {
                None => {
                    proof {
                        lemma_pieces_none(rest, sep);
                    }
                    b
                },
                Some(second_sep) => {
                    proof {
                        lemma_pieces_found(rest, sep, second_sep - (first_sep + 1));
                        assert(rest.take(second_sep - (first_sep + 1)) =~= cs@.subrange(first_sep + 1, second_sep as int));
                    }
                    second_sep
                },
            };
            let f0 = trim_range(cs, a, first_sep);
            let f1 = trim_range(cs, first_sep + 1, end);
            Some((f0, f1))
        },
    }
}

/// The decimal digit for `d < 10`.
pub open spec fn digit_char(d: nat) -> char {
    ((48 + d) as u8) as char
}

/// The decimal text of `n`, without sign or leading zeros, as the `Display`
/// of an unsigned integer writes it.
pub open spec fn decimal_text(n: nat) -> Seq<char>
    decreases n,
{
    if n < 10 {
        seq![digit_char(n)]
    } else {
        decimal_text(n / 10).push(digit_char(n % 10))
    }
}

/// Writes `n` in decimal.
pub fn decimal_string(n: u128) -> (s: String)
    ensures
        s@ == decimal_text(n as nat),
{
    let mut digits: Vec<char> = Vec::new();
    let mut m: u128 = n;
    while m >= 10
        invariant
            decimal_text(n as nat) == decimal_text(m as nat) + digits@,
        decreases m,
    {
        let d = (m % 10) as u8;
        let ghost old_digits = digits@;
        digits.insert(0, (48u8 + d) as char);
        proof {
            assert(decimal_text(m as nat) == decimal_text((m / 10) as nat).push(digit_char((m % 10) as nat)));
            assert(decimal_text((m / 10) as nat).push(digit_char((m % 10) as nat)) + old_digits
                =~= decimal_text((m / 10) as nat) + digits@);
        }
        m = m / 10;
    }
    let ghost old_digits = digits@;
    digits.insert(0, (48u8 + m as u8) as char);
    proof {
        assert(seq![digit_char(m as nat)] + old_digits =~= digits@);
    }
    let len = digits.len();
    let s = string_of(&digits, 0, len);
    proof {
        assert(digits@.subrange(0, len as int) =~= digits@);
    }
    s
}

} // verus!
