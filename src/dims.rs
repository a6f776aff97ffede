//! Parsing of `"W,H"` dimension strings, as reported by the probe utility or
//! given on the command line, and the choice of the character grid.
use vstd::prelude::*;

verus! {

#[derive(Clone, Copy, Debug, PartialEq, Eq)]
pub enum ParseDimsError {
    /// A component is not a decimal number that fits in `usize`.
    NotANumber,
    /// There are not exactly two non-empty components.
    NotTwoComponents,
}

/// Unicode White_Space, as `char::is_whitespace` and `str::trim` use it.
pub open spec fn is_space(c: char) -> bool {
    let v = c as u32;
    (9 <= v <= 13) || v == 32 || v == 0x85 || v == 0xa0 || v == 0x1680 || (0x2000 <= v <= 0x200a)
        || v == 0x2028 || v == 0x2029 || v == 0x202f || v == 0x205f || v == 0x3000
}

pub open spec fn is_digit(c: char) -> bool {
    48 <= c as u32 <= 57
}

pub open spec fn digit_val(c: char) -> nat {
    if is_digit(c) {
        (c as u32 - 48) as nat
    } else {
        0
    }
}

/// The value of a string of decimal digits.
pub open spec fn digits_value(t: Seq<char>) -> nat
    decreases t.len(),
{
    if t.len() == 0 {
        0
    } else {
        digits_value(t.drop_last()) * 10 + digit_val(t.last())
    }
}

/// The digits of an unsigned number: an optional leading `+` is dropped.
pub open spec fn unsigned_digits(t: Seq<char>) -> Seq<char> {
    if t.len() > 0 && t[0] == '+' {
        t.drop_first()
    } else {
        t
    }
}

/// An unsigned decimal number that fits in `usize`, or `None`.
pub open spec fn parse_usize(t: Seq<char>) -> Option<usize> {
    let d = unsigned_digits(t);
    if d.len() > 0 && (forall|i: int| 0 <= i < d.len() ==> is_digit(#[trigger] d[i]))
        && digits_value(d) <= usize::MAX {
        Some(digits_value(d) as usize)
    } else {
        None
    }
}

pub open spec fn trim_start(s: Seq<char>) -> Seq<char>
    decreases s.len(),
{
    if s.len() > 0 && is_space(s[0]) {
        trim_start(s.drop_first())
    } else {
        s
    }
}

pub open spec fn trim_end(s: Seq<char>) -> Seq<char>
    decreases s.len(),
{
    if s.len() > 0 && is_space(s.last()) {
        trim_end(s.drop_last())
    } else {
        s
    }
}

pub open spec fn trim(s: Seq<char>) -> Seq<char> {
    trim_end(trim_start(s))
}

/// One component: surrounding white space is ignored.
pub open spec fn parse_field(f: Seq<char>) -> Option<usize> {
    parse_usize(trim(f))
}

/// Splitting on `,` from left to right: the components completed so far and the
/// one being read. Empty components are dropped.
pub open spec fn scan(s: Seq<char>) -> (Seq<Seq<char>>, Seq<char>)
    decreases s.len(),
{
    if s.len() == 0 {
        (Seq::empty(), Seq::empty())
    } else {
        let (done, cur) = scan(s.drop_last());
        if s.last() == ',' {
            if cur.len() > 0 {
                (done.push(cur), Seq::empty())
            } else {
                (done, cur)
            }
        } else {
            (done, cur.push(s.last()))
        }
    }
}

/// The non-empty components of `s` between commas.
pub open spec fn fields(s: Seq<char>) -> Seq<Seq<char>> {
    let (done, cur) = scan(s);
    if cur.len() > 0 {
        done.push(cur)
    } else {
        done
    }
}

/// What a dimension string denotes: two numbers, or the reason it does not.
pub open spec fn dims_of(s: Seq<char>) -> Result<(usize, usize), ParseDimsError> {
    let fs = fields(s);
    if exists|i: int| 0 <= i < fs.len() && parse_field(#[trigger] fs[i]) is None {
        Err(ParseDimsError::NotANumber)
    } else if fs.len() != 2 {
        Err(ParseDimsError::NotTwoComponents)
    } else {
        Ok((parse_field(fs[0]).unwrap(), parse_field(fs[1]).unwrap()))
    }
}

fn is_space_char(c: char) -> (r: bool)
    ensures
        r == is_space(c),
{
    let v = c as u32;
    (9 <= v && v <= 13) || v == 32 || v == 0x85 || v == 0xa0 || v == 0x1680 || (0x2000 <= v && v
        <= 0x200a) || v == 0x2028 || v == 0x2029 || v == 0x202f || v == 0x205f || v == 0x3000
}

proof fn lemma_digits_value_prefix(t: Seq<char>, p: int)
    requires
        0 <= p <= t.len(),
    ensures
        digits_value(t.subrange(0, p)) <= digits_value(t),
    decreases t.len(),
{
    if p < t.len() {
        assert(t.drop_last().subrange(0, p) =~= t.subrange(0, p));
        lemma_digits_value_prefix(t.drop_last(), p);
    } else {
        assert(t.subrange(0, p) =~= t);
    }
}

/// Parses one component.
fn parse_field_chars(f: &Vec<char>) -> (r: Option<usize>)
    ensures
        r == parse_field(f@),
{
    let n = f.len();
    let mut i: usize = 0;
    assert(f@.subrange(0, n as int) =~= f@);
    while i < n && is_space_char(f[i])
        invariant
            i <= n,
            n == f@.len(),
            trim_start(f@) == trim_start(f@.subrange(i as int, n as int)),
        decreases n - i,
    {
        assert(f@.subrange(i as int, n as int).drop_first() =~= f@.subrange(i + 1, n as int));
        i = i + 1;
    }
    let mut j: usize = n;
    while j > i && is_space_char(f[j - 1])
        invariant
            i <= j <= n,
            n == f@.len(),
            trim(f@) == trim_end(f@.subrange(i as int, j as int)),
        decreases j - i,
    {
        assert(f@.subrange(i as int, j as int).drop_last() =~= f@.subrange(i as int, j - 1));
        j = j - 1;
    }
    let ghost t = f@.subrange(i as int, j as int);
    assert(trim(f@) == t);
    let mut k = i;
    if k < j && f[k] == '+' {
        k = k + 1;
        assert(t.drop_first() =~= f@.subrange(k as int, j as int));
    } else {
        assert(t =~= f@.subrange(k as int, j as int));
    }
    let ghost d = f@.subrange(k as int, j as int);
    assert(unsigned_digits(t) == d);
    if k == j {
        return None;
    }
    let mut v: usize = 0;
    let mut p = k;
    while p < j
        invariant
            k <= p <= j <= n,
            n == f@.len(),
            d == f@.subrange(k as int, j as int),
            parse_field(f@) == parse_usize(t),
            unsigned_digits(t) == d,
            d.len() > 0,
            v == digits_value(d.subrange(0, p - k)),
            forall|m: int| 0 <= m < p - k ==> is_digit(#[trigger] d[m]),
        decreases j - p,
    {
        let c = f[p];
        let cv = c as u32;
        if cv < 48 || cv > 57 {
            assert(!is_digit(d[p - k]));
            assert(!(forall|m: int| 0 <= m < d.len() ==> is_digit(#[trigger] d[m])));
            return None;
        }
        assert(d.subrange(0, p + 1 - k).drop_last() =~= d.subrange(0, p - k));
        let digit = (cv - 48) as usize;
        assert(is_digit(d[p - k]));
        assert(digit_val(d[p - k]) == digit);
        assert(digits_value(d.subrange(0, p + 1 - k)) == v * 10 + digit);
        match v.checked_mul(10) {
            None => {
                proof {
                    lemma_digits_value_prefix(d, p + 1 - k);
                    assert(digits_value(d) > usize::MAX);
                }
                return None;
            },
            Some(w) => match w.checked_add(digit) {
                None => {
                    proof {
                        lemma_digits_value_prefix(d, p + 1 - k);
                        assert(digits_value(d) > usize::MAX);
                    }
                    return None;
                },
                Some(x) => {
                    v = x;
                },
            },
        }
        p = p + 1;
    }
    assert(d.subrange(0, p - k) =~= d);
    Some(v)
}

/// Parses `"W,H"`: components are separated by commas, empty ones are skipped,
/// white space around each is ignored, and exactly two numbers must remain.
pub fn parse_dims(strbuf: String) -> (r: Result<(usize, usize), ParseDimsError>)
    ensures
        r == dims_of(strbuf@),
{
    let s = strbuf.as_str();
    let n = s.unicode_len();
    let mut parsed: Vec<Option<usize>> = Vec::new();
    let mut cur: Vec<char> = Vec::new();
    let ghost mut done: Seq<Seq<char>> = Seq::empty();
    let mut i: usize = 0;
    while i < n
        invariant
            i <= n,
            n == s@.len(),
            s@ == strbuf@,
            scan(s@.subrange(0, i as int)) == (done, cur@),
            parsed@ == done.map_values(|f: Seq<char>| parse_field(f)),
        decreases n - i,
    {
        let c = s.get_char(i);
        assert(s@.subrange(0, i + 1).drop_last() =~= s@.subrange(0, i as int));
        if c == ',' {
            if cur.len() > 0 {
                let pf = parse_field_chars(&cur);
                parsed.push(pf);
                proof {
                    done = done.push(cur@);
                }
                cur = Vec::new();
                assert(parsed@ =~= done.map_values(|f: Seq<char>| parse_field(f)));
                assert(cur@ =~= Seq::<char>::empty());
            }
        } else {
            cur.push(c);
        }
        i = i + 1;
    }
    assert(s@.subrange(0, n as int) =~= s@);
    if cur.len() > 0 {
        let pf = parse_field_chars(&cur);
        parsed.push(pf);
        proof {
            done = done.push(cur@);
        }
        assert(parsed@ =~= done.map_values(|f: Seq<char>| parse_field(f)));
    }
    let ghost fs = fields(strbuf@);
    assert(done == fs);
    let mut j: usize = 0;
    while j < parsed.len()
        invariant
            j <= parsed@.len(),
            parsed@ == fs.map_values(|f: Seq<char>| parse_field(f)),
            fs == fields(strbuf@),
            forall|m: int| 0 <= m < j ==> parse_field(#[trigger] fs[m]) is Some,
        decreases parsed@.len() - j,
    {
        if parsed[j].is_none() {
            assert(parse_field(fs[j as int]) is None);
            assert(exists|m: int| 0 <= m < fs.len() && parse_field(#[trigger] fs[m]) is None);
            return Err(ParseDimsError::NotANumber);
        }
        j = j + 1;
    }
    if parsed.len() != 2 {
        return Err(ParseDimsError::NotTwoComponents);
    }
    match (parsed[0], parsed[1]) {
        (Some(w), Some(h)) => Ok((w, h)),
        _ => {
            assert(parse_field(fs[0]) is Some);
            assert(parse_field(fs[1]) is Some);
            Err(ParseDimsError::NotANumber)
        },
    }
}

/// The character grid: the override when one is given, else the detected
/// terminal size, else 80 columns by 24 rows.
pub fn get_terminal_size(render_dimension: Option<String>, detected: Option<(usize, usize)>) -> (r: Result<(usize, usize), ParseDimsError>)
    ensures
        match render_dimension {
            Some(s) => r == dims_of(s@),
            None => r == Ok::<(usize, usize), ParseDimsError>(
                match detected {
                    Some(d) => d,
                    None => (80usize, 24usize),
                },
            ),
        },
{
    match render_dimension {
        Some(v) => parse_dims(v),
        None => match detected {
            Some((w, h)) => Ok((w, h)),
            None => Ok((80, 24)),
        },
    }
}

} // verus!
