//! Text handling of request parameters: Unicode white space, trimming,
//! decimal `i32` numbers and comma-separated lists of ids.
use vstd::prelude::*;
use vstd::string::StrSliceExecFns;

verus! {

/// The Unicode `White_Space` property, which `char::is_whitespace` tests.
pub open spec fn is_white_space(c: char) -> bool {
    let u: u32 = c as u32;
    ||| 0x9 <= u <= 0xD
    ||| u == 0x20
    ||| u == 0x85
    ||| u == 0xA0
    ||| u == 0x1680
    ||| 0x2000 <= u <= 0x200A
    ||| u == 0x2028
    ||| u == 0x2029
    ||| u == 0x202F
    ||| u == 0x205F
    ||| u == 0x3000
}

/// Whether `c` has the Unicode `White_Space` property.
pub fn is_whitespace(c: char) -> (r: bool)
    ensures
        r == is_white_space(c),
{
    let u: u32 = c as u32;
    (0x9 <= u && u <= 0xD) || u == 0x20 || u == 0x85 || u == 0xA0 || u == 0x1680 || (0x2000 <= u
        && u <= 0x200A) || u == 0x2028 || u == 0x2029 || u == 0x202F || u == 0x205F || u == 0x3000
}

/// `s` without its leading white space.
pub open spec fn trim_start(s: Seq<char>) -> Seq<char>
    decreases s.len(),
{
    if s.len() > 0 && is_white_space(s[0]) {
        trim_start(s.drop_first())
    } else {
        s
    }
}

/// `s` without its trailing white space.
pub open spec fn trim_end(s: Seq<char>) -> Seq<char>
    decreases s.len(),
{
    if s.len() > 0 && is_white_space(s.last()) {
        trim_end(s.drop_last())
    } else {
        s
    }
}

/// `s` without leading and trailing white space, as `str::trim` gives it.
pub open spec fn trim(s: Seq<char>) -> Seq<char> {
    trim_end(trim_start(s))
}

pub open spec fn is_digit(c: char) -> bool {
    '0' <= c <= '9'
}

/// The number the decimal digits `s` write.
pub open spec fn digits_value(s: Seq<char>) -> int
    decreases s.len(),
{
    if s.len() == 0 {
        0
    } else {
        digits_value(s.drop_last()) * 10 + (s.last() as int - '0' as int)
    }
}

/// `s` without its sign character, if it starts with one.
pub open spec fn unsigned_part(s: Seq<char>) -> Seq<char> {
    if s.len() > 0 && (s[0] == '-' || s[0] == '+') {
        s.skip(1)
    } else {
        s
    }
}

/// `s` is one or more decimal digits.
pub open spec fn all_digits(s: Seq<char>) -> bool {
    s.len() > 0 && forall|i: int| 0 <= i < s.len() ==> is_digit(#[trigger] s[i])
}

/// The `i32` that `s` writes in decimal, with an optional sign, as
/// `str::parse::<i32>` reads it; `None` when `s` is not such a number or
/// the number does not fit.
pub open spec fn parse_i32_spec(s: Seq<char>) -> Option<i32> {
    let body = unsigned_part(s);
    if !all_digits(body) {
        None
    } else {
        let v: int = if s[0] == '-' {
            -digits_value(body)
        } else {
            digits_value(body)
        };
        if i32::MIN <= v <= i32::MAX {
            Some(v as i32)
        } else {
            None
        }
    }
}

/// The pieces of `s` between the separators `sep`, as `str::split` cuts them.
pub open spec fn split_on(s: Seq<char>, sep: char) -> Seq<Seq<char>>
    decreases s.len(),
{
    if s.len() == 0 {
        seq![Seq::<char>::empty()]
    } else {
        let rest = split_on(s.drop_last(), sep);
        if s.last() == sep {
            rest.push(Seq::<char>::empty())
        } else {
            rest.update(rest.len() - 1, rest.last().push(s.last()))
        }
    }
}

/// The ids each trimmed piece writes, or `None` if one piece is not an `i32`.
pub open spec fn parse_pieces(pieces: Seq<Seq<char>>) -> Option<Seq<i32>>
    decreases pieces.len(),
{
    if pieces.len() == 0 {
        Some(Seq::<i32>::empty())
    } else {
        match (parse_pieces(pieces.drop_last()), parse_i32_spec(trim(pieces.last()))) {
            (Some(v), Some(x)) => Some(v.push(x)),
            _ => None,
        }
    }
}

/// The ids of a comma-separated list such as `"1, 2,3"`.
pub open spec fn id_list(s: Seq<char>) -> Option<Seq<i32>> {
    parse_pieces(split_on(s, ','))
}

proof fn lemma_split_nonempty(s: Seq<char>, sep: char)
    ensures
        split_on(s, sep).len() >= 1,
    decreases s.len(),
{
    if s.len() > 0 {
        lemma_split_nonempty(s.drop_last(), sep);
    }
}

proof fn lemma_parse_pieces_len(pieces: Seq<Seq<char>>)
    ensures
        parse_pieces(pieces) matches Some(v) ==> v.len() == pieces.len(),
    decreases pieces.len(),
{
    if pieces.len() > 0 {
        lemma_parse_pieces_len(pieces.drop_last());
    }
}

/// Law: a list that parses holds one id per piece, so at least one.
pub proof fn law_id_list_nonempty(s: Seq<char>)
    ensures
        id_list(s) matches Some(v) ==> v.len() == split_on(s, ',').len() && v.len() >= 1,
{
    lemma_split_nonempty(s, ',');
    lemma_parse_pieces_len(split_on(s, ','));
}

/// The characters of a text.
pub fn chars_of(s: &str) -> (r: Vec<char>)
    ensures
        r@ == s@,
{
    let n: usize = s.unicode_len();
    let mut r: Vec<char> = Vec::new();
    let mut i: usize = 0;
    while i < n
        invariant
            n == s@.len(),
            i <= n,
            r@ == s@.take(i as int),
        decreases n - i,
    {
        let c = s.get_char(i);
        proof {
            assert(s@.take(i + 1) =~= s@.take(i as int).push(c));
        }
        r.push(c);
        i = i + 1;
    }
    proof {
        assert(s@.take(n as int) =~= s@);
    }
    r
}

/// The bounds `[a, b)` of `cs[start..end]` with white space trimmed off.
fn trim_bounds(cs: &Vec<char>, start: usize, end: usize) -> (r: (usize, usize))
    requires
        start <= end <= cs@.len(),
    ensures
        start <= r.0 <= r.1 <= end,
        cs@.subrange(r.0 as int, r.1 as int) == trim(cs@.subrange(start as int, end as int)),
{
    let mut a: usize = start;
    while a < end && is_whitespace(cs[a])
        invariant
            start <= a <= end <= cs@.len(),
            trim_start(cs@.subrange(start as int, end as int)) == trim_start(cs@.subrange(a as int, end as int)),
        decreases end - a,
    {
        proof {
            assert(cs@.subrange(a as int, end as int).drop_first() =~= cs@.subrange(a + 1, end as int));
        }
        a = a + 1;
    }
    let mut b: usize = end;
    while b > a && is_whitespace(cs[b - 1])
        invariant
            start <= a <= b <= end <= cs@.len(),
            trim_start(cs@.subrange(start as int, end as int)) == cs@.subrange(a as int, end as int),
            trim_end(cs@.subrange(a as int, end as int)) == trim_end(cs@.subrange(a as int, b as int)),
        decreases b - a,
    {
        proof {
            assert(cs@.subrange(a as int, b as int).drop_last() =~= cs@.subrange(a as int, b - 1));
        }
        b = b - 1;
    }
    (a, b)
}

proof fn lemma_digits_value_step(s: Seq<char>, c: char)
    ensures
        digits_value(s.push(c)) == digits_value(s) * 10 + (c as int - '0' as int),
{
    assert(s.push(c).drop_last() =~= s);
}

proof fn lemma_digits_value_nonneg(s: Seq<char>)
    requires
        forall|i: int| 0 <= i < s.len() ==> is_digit(#[trigger] s[i]),
    ensures
        digits_value(s) >= 0,
    decreases s.len(),
{
    if s.len() > 0 {
        lemma_digits_value_nonneg(s.drop_last());
    }
}

/// The `i32` that `cs[start..end]` writes, as `str::parse::<i32>` reads it.
pub fn parse_i32_range(cs: &Vec<char>, start: usize, end: usize) -> (r: Option<i32>)
    requires
        start <= end <= cs@.len(),
    ensures
        r == parse_i32_spec(cs@.subrange(start as int, end as int)),
{
    let ghost s = cs@.subrange(start as int, end as int);
    let neg = start < end && cs[start] == '-';
    let first: usize = if start < end && (cs[start] == '-' || cs[start] == '+') {
        start + 1
    } else {
        start
    };
    let ghost body = unsigned_part(s);
    assert(body =~= cs@.subrange(first as int, end as int));
    if first == end {
        return None;
    }
    let mut acc: i64 = 0;
    let mut too_big = false;
    let mut i: usize = first;
    while i < end
        invariant
            first <= i <= end <= cs@.len(),
            start <= first,
            s == cs@.subrange(start as int, end as int),
            body == unsigned_part(s),
            body == cs@.subrange(first as int, end as int),
            forall|k: int| first <= k < i ==> is_digit(#[trigger] cs@[k]),
            !too_big ==> acc == digits_value(cs@.subrange(first as int, i as int)),
            !too_big ==> 0 <= acc <= 2147483648,
            too_big ==> digits_value(cs@.subrange(first as int, i as int)) > 2147483648,
        decreases end - i,
    {
        let c = cs[i];
        if !('0' <= c && c <= '9') {
            assert(body[i - first] == cs@[i as int]);
            assert(!is_digit(body[i - first]));
            assert(!(forall|k: int| 0 <= k < body.len() ==> is_digit(#[trigger] body[k])));
            assert(parse_i32_spec(s) is None);
            return None;
        }
        proof {
            assert(cs@.subrange(first as int, i + 1) =~= cs@.subrange(first as int, i as int).push(c));
            lemma_digits_value_step(cs@.subrange(first as int, i as int), c);
            assert forall|k: int| 0 <= k < i - first implies is_digit(#[trigger] cs@.subrange(first as int, i as int)[k]) by {
                assert(cs@.subrange(first as int, i as int)[k] == cs@[first + k]);
            }
            lemma_digits_value_nonneg(cs@.subrange(first as int, i as int));
        }
        if !too_big {
            let d: i64 = (c as u32 - '0' as u32) as i64;
            acc = acc * 10 + d;
            if acc > 2147483648 {
                too_big = true;
            }
        }
        i = i + 1;
    }
    assert forall|k: int| 0 <= k < body.len() implies is_digit(#[trigger] body[k]) by {
        assert(body[k] == cs@[first + k]);
    }
    if too_big {
        return None;
    }
    assert(body =~= cs@.subrange(first as int, end as int));
    if neg {
        let v: i64 = -acc;
        if v < -2147483648 {
            None
        } else {
            Some(v as i32)
        }
    } else {
        if acc > 2147483647 {
            None
        } else {
            Some(acc as i32)
        }
    }
}

/// Whether `s` holds nothing but white space (`s.trim().is_empty()`).
pub fn is_blank(s: &str) -> (r: bool)
    ensures
        r == (trim(s@).len() == 0),
{
    let cs = chars_of(s);
    let (a, b) = trim_bounds(&cs, 0, cs.len());
    assert(cs@.subrange(0, cs@.len() as int) =~= s@);
    a == b
}

/// The ids of a comma-separated list, each piece trimmed and read as an
/// `i32`; `None` when a piece is not a number.
pub fn parse_id_list(s: &str) -> (r: Option<Vec<i32>>)
    ensures
        match r {
            Some(v) => id_list(s@) == Some(v@),
            None => id_list(s@) is None,
        },
{
    let cs = chars_of(s);
    let n: usize = cs.len();
    let mut ids: Vec<i32> = Vec::new();
    let mut ok = true;
    let mut piece_start: usize = 0;
    let mut i: usize = 0;
    let ghost mut done: Seq<Seq<char>> = Seq::empty();
    proof {
        assert(cs@.subrange(0, 0) =~= Seq::<char>::empty());
        assert(split_on(Seq::<char>::empty(), ',') =~= done.push(Seq::<char>::empty()));
    }
    while i < n
        invariant
            n == cs@.len(),
            piece_start <= i <= n,
            split_on(cs@.subrange(0, i as int), ',') == done.push(cs@.subrange(piece_start as int, i as int)),
            ok ==> parse_pieces(done) == Some(ids@),
            !ok ==> parse_pieces(done) is None,
        decreases n - i,
    {
        let ghost prefix = cs@.subrange(0, i as int);
        proof {
            assert(cs@.subrange(0, i + 1).drop_last() =~= prefix);
            assert(cs@.subrange(0, i + 1).last() == cs@[i as int]);
        }
        if cs[i] == ',' {
            let parsed = if ok {
                let (a, b) = trim_bounds(&cs, piece_start, i);
                parse_i32_range(&cs, a, b)
            } else {
                None
            };
            proof {
                let piece = cs@.subrange(piece_start as int, i as int);
                assert(done.push(piece).drop_last() =~= done);
                done = done.push(piece);
            }
            match parsed {
                Some(x) => {
                    ids.push(x);
                },
                None => {
                    ok = false;
                },
            }
            piece_start = i + 1;
            proof {
                assert(cs@.subrange(piece_start as int, i + 1) =~= Seq::<char>::empty());
            }
        } else {
            proof {
                let rest = split_on(prefix, ',');
                assert(rest.len() - 1 == done.len());
                assert(cs@.subrange(piece_start as int, i + 1) =~= cs@.subrange(piece_start as int, i as int).push(cs@[i as int]));
                assert(done.push(cs@.subrange(piece_start as int, i as int)).update(done.len() as int, cs@.subrange(piece_start as int, i + 1)) =~= done.push(cs@.subrange(piece_start as int, i + 1)));
            }
        }
        i = i + 1;
    }
    let last = if ok {
        let (a, b) = trim_bounds(&cs, piece_start, n);
        parse_i32_range(&cs, a, b)
    } else {
        None
    };
    let ghost all = done.push(cs@.subrange(piece_start as int, n as int));
    proof {
        assert(cs@.subrange(0, n as int) =~= s@);
        assert(all.drop_last() =~= done);
    }
    match last {
        Some(x) => {
            ids.push(x);
            Some(ids)
        },
        None => None,
    }
}

} // verus!
