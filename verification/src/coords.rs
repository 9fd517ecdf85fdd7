//! A width/height (or x/y) pair of machine integers, as given on the
//! command line, and the parser that reads one from a string such as
//! `(640, 480)` or `640,480` or a single number `640`.

use vstd::prelude::*;

verus! {

/// A pair of non-negative coordinates: a size `(w, h)` or an offset `(x, y)`.
#[derive(Clone, Copy, Debug, PartialEq, Eq, Structural)]
pub struct Coords(pub usize, pub usize);

impl Coords {
    /// The first component: a width, or a horizontal offset.
    pub fn w(&self) -> (r: usize)
        ensures
            r == self.0,
    {
        self.0
    }

    /// The second component: a height, or a vertical offset.
    pub fn h(&self) -> (r: usize)
        ensures
            r == self.1,
    {
        self.1
    }
}

/// True of the characters that the pair syntax discards outright.
pub open spec fn is_paren(c: char) -> bool {
    c == '(' || c == ')'
}

/// The string with every parenthesis removed, other characters kept in order.
pub open spec fn strip_parens(s: Seq<char>) -> Seq<char>
    decreases s.len(),
{
    if s.len() == 0 {
        Seq::empty()
    } else {
        let rest = strip_parens(s.drop_last());
        if is_paren(s.last()) {
            rest
        } else {
            rest.push(s.last())
        }
    }
}

/// ASCII whitespace, ignored around each number of a pair.
pub open spec fn is_space_char(c: char) -> bool {
    c == ' ' || c == '\t' || c == '\n' || c == '\r'
}

/// The string without its leading whitespace.
pub open spec fn trim_front(s: Seq<char>) -> Seq<char>
    decreases s.len(),
{
    if s.len() > 0 && is_space_char(s.first()) {
        trim_front(s.drop_first())
    } else {
        s
    }
}

/// The string without its trailing whitespace.
pub open spec fn trim_back(s: Seq<char>) -> Seq<char>
    decreases s.len(),
{
    if s.len() > 0 && is_space_char(s.last()) {
        trim_back(s.drop_last())
    } else {
        s
    }
}

/// The string without leading or trailing whitespace.
pub open spec fn trimmed(s: Seq<char>) -> Seq<char> {
    trim_back(trim_front(s))
}

/// A decimal digit.
pub open spec fn is_digit_char(c: char) -> bool {
    48 <= c as u32 && c as u32 <= 57
}

/// The numeric value of a decimal digit.
pub open spec fn digit_val(c: char) -> int {
    c as u32 - 48
}

/// Every character of the string is a decimal digit.
pub open spec fn all_digits(s: Seq<char>) -> bool {
    forall|i: int| 0 <= i < s.len() ==> is_digit_char(s[i])
}

/// The number that a string of decimal digits denotes, most significant first.
pub open spec fn digits_value(s: Seq<char>) -> int
    decreases s.len(),
{
    if s.len() == 0 {
        0
    } else {
        digits_value(s.drop_last()) * 10 + digit_val(s.last())
    }
}

/// A field of a pair parses as a number: after trimming it is a non-empty
/// digit string whose value fits in `usize`.
pub open spec fn field_ok(s: Seq<char>) -> bool {
    let t = trimmed(s);
    t.len() > 0 && all_digits(t) && digits_value(t) <= usize::MAX
}

/// The number a field denotes (meaningful when `field_ok` holds).
pub open spec fn field_value(s: Seq<char>) -> int {
    digits_value(trimmed(s))
}

/// How many commas the string holds.
pub open spec fn count_commas(s: Seq<char>) -> int
    decreases s.len(),
{
    if s.len() == 0 {
        0
    } else {
        count_commas(s.drop_last()) + if s.last() == ',' {
            1int
        } else {
            0int
        }
    }
}

/// The index of the first comma (the length, if there is none).
pub open spec fn first_comma(s: Seq<char>) -> int
    decreases s.len(),
{
    if s.len() == 0 {
        0
    } else if s.first() == ',' {
        0
    } else {
        1 + first_comma(s.drop_first())
    }
}

proof fn lemma_digits_value_nonneg(s: Seq<char>)
    requires
        all_digits(s),
    ensures
        digits_value(s) >= 0,
    decreases s.len(),
{
    if s.len() > 0 {
        assert(all_digits(s.drop_last()));
        lemma_digits_value_nonneg(s.drop_last());
        assert(is_digit_char(s.last()));
    }
}

proof fn lemma_digits_value_prefix(s: Seq<char>, k: int)
    requires
        all_digits(s),
        0 <= k <= s.len(),
    ensures
        digits_value(s.take(k)) <= digits_value(s),
    decreases s.len(),
{
    if k == s.len() {
        assert(s.take(k) =~= s);
    } else {
        let d = s.drop_last();
        assert(all_digits(d));
        assert(s.take(k) =~= d.take(k));
        lemma_digits_value_prefix(d, k);
        lemma_digits_value_nonneg(d);
        assert(is_digit_char(s.last()));
        assert(digits_value(d) * 10 >= digits_value(d));
    }
}

/// Whether a character counts as trimmable whitespace.
fn is_space(c: char) -> (r: bool)
    ensures
        r == is_space_char(c),
{
    c == ' ' || c == '\t' || c == '\n' || c == '\r'
}

/// Parses the digit field `t[lo..hi]`: whitespace is trimmed at both ends,
/// and what remains must be a non-empty run of decimal digits whose value
/// fits in `usize`.
#[verifier::loop_isolation(false)]
fn parse_field(t: &Vec<char>, lo: usize, hi: usize) -> (r: Option<usize>)
    requires
        lo <= hi <= t@.len(),
    ensures
        ({
            let f = t@.subrange(lo as int, hi as int);
            match r {
                Some(v) => field_ok(f) && v == field_value(f),
                None => !field_ok(f),
            }
        }),
{
    let ghost f = t@.subrange(lo as int, hi as int);
    let mut a: usize = lo;
    while a < hi && is_space(t[a])
        invariant
            lo <= a <= hi <= t@.len(),
            trim_front(t@.subrange(lo as int, hi as int)) == trim_front(
                t@.subrange(a as int, hi as int),
            ),
        decreases hi - a,
    {
        proof {
            let cur = t@.subrange(a as int, hi as int);
            assert(cur.drop_first() =~= t@.subrange(a + 1, hi as int));
        }
        a = a + 1;
    }
    proof {
        let cur = t@.subrange(a as int, hi as int);
        if a < hi {
            assert(!is_space_char(cur.first()));
        }
        assert(trim_front(cur) == cur);
        assert(trim_front(f) == cur);
    }
    let mut b: usize = hi;
    while b > a && is_space(t[b - 1])
        invariant
            lo <= a <= b <= hi <= t@.len(),
            trim_front(f) == t@.subrange(a as int, hi as int),
            trimmed(f) == trim_back(t@.subrange(a as int, b as int)),
        decreases b,
    {
        proof {
            let cur = t@.subrange(a as int, b as int);
            assert(cur.drop_last() =~= t@.subrange(a as int, b - 1));
        }
        b = b - 1;
    }
    proof {
        let cur = t@.subrange(a as int, b as int);
        if b > a {
            assert(!is_space_char(cur.last()));
        }
        assert(trimmed(f) == cur);
    }
    if a == b {
        proof {
            assert(trimmed(f).len() == 0);
        }
        return None;
    }
    let mut acc: usize = 0;
    let mut j: usize = a;
    while j < b
        invariant
            a <= j <= b <= t@.len(),
            a < b,
            trimmed(f) == t@.subrange(a as int, b as int),
            all_digits(t@.subrange(a as int, j as int)),
            acc == digits_value(t@.subrange(a as int, j as int)),
        decreases b - j,
    {
        let c = t[j];
        let code: u32 = c as u32;
        proof {
            let nxt = t@.subrange(a as int, j + 1);
            assert(nxt.drop_last() =~= t@.subrange(a as int, j as int));
            assert(nxt.last() == t@[j as int]);
        }
        if code < 48 || code > 57 {
            proof {
                let tr = trimmed(f);
                assert(tr[j - a] == t@[j as int]);
                assert(!is_digit_char(tr[j - a]));
                assert(!all_digits(tr));
            }
            return None;
        }
        let d: usize = (code - 48) as usize;
        let step = match acc.checked_mul(10) {
            Some(m) => m.checked_add(d),
            None => None,
        };
        match step {
            Some(v) => {
                acc = v;
            },
            None => {
                proof {
                    let tr = trimmed(f);
                    if all_digits(tr) {
                        assert(t@.subrange(a as int, j + 1) =~= tr.take(j + 1 - a));
                        lemma_digits_value_prefix(tr, j + 1 - a);
                        assert(digits_value(tr) > usize::MAX);
                    }
                }
                return None;
            },
        }
        j = j + 1;
    }
    proof {
        assert(t@.subrange(a as int, b as int) =~= trimmed(f));
        assert(field_ok(f));
    }
    Some(acc)
}

proof fn lemma_first_comma_at(s: Seq<char>, p: int)
    requires
        0 <= p < s.len(),
        s[p] == ',',
        forall|k: int| 0 <= k < p ==> s[k] != ',',
    ensures
        first_comma(s) == p,
    decreases p,
{
    if p > 0 {
        let d = s.drop_first();
        assert(forall|k: int| 0 <= k < p - 1 ==> d[k] == s[k + 1] && d[k] != ',');
        lemma_first_comma_at(d, p - 1);
    }
}

/// Reads a coordinate pair from a string such as `(640, 480)`, `640,480`,
/// or a single number `640` (which stands for both components).
///
/// Parentheses are discarded wherever they occur; the rest is split at the
/// comma. A string without a comma must be one number, which fills both
/// components; a string with one comma must be two numbers; more commas are
/// rejected. Each number may be padded with whitespace and must be a run of
/// decimal digits whose value fits the machine word.
#[verifier::loop_isolation(false)]
pub fn parse_pair(s: &str) -> (r: Result<Coords, &'static str>)
    ensures
        ({
            let t = strip_parens(s@);
            let nc = count_commas(t);
            &&& nc >= 2 ==> (r matches Err(m) && m@ == "valid sizes: 1 and 2"@)
            &&& nc == 0 ==> ({
                if field_ok(t) {
                    r matches Ok(c) && c.0 == field_value(t) && c.1 == field_value(t)
                } else {
                    r matches Err(m) && m@ == "number must be a positive integer"@
                }
            })
            &&& nc == 1 ==> ({
                let p = first_comma(t);
                let fa = t.take(p);
                let fb = t.subrange(p + 1, t.len() as int);
                if field_ok(fa) && field_ok(fb) {
                    r matches Ok(c) && c.0 == field_value(fa) && c.1 == field_value(fb)
                } else {
                    r matches Err(m) && m@ == "number must be a positive integer"@
                }
            })
        }),
{
    let n = s.unicode_len();
    let mut kept: Vec<char> = Vec::new();
    let mut i: usize = 0;
    while i < n
        invariant
            i <= n,
            n == s@.len(),
            kept@ == strip_parens(s@.take(i as int)),
        decreases n - i,
    {
        let c = s.get_char(i);
        proof {
            let nxt = s@.take(i + 1);
            assert(nxt.drop_last() =~= s@.take(i as int));
            assert(nxt.last() == s@[i as int]);
        }
        if !(c == '(' || c == ')') {
            kept.push(c);
        }
        i = i + 1;
    }
    proof {
        assert(s@.take(n as int) =~= s@);
    }
    let m = kept.len();
    let mut commas: usize = 0;
    let mut p: usize = m;
    let mut j: usize = 0;
    while j < m
        invariant
            j <= m,
            commas <= j,
            commas == count_commas(kept@.take(j as int)),
            commas == 0 ==> p == m && (forall|k: int| 0 <= k < j ==> kept@[k] != ','),
            commas >= 1 ==> p < j && kept@[p as int] == ',' && (forall|k: int|
                0 <= k < p ==> kept@[k] != ','),
        decreases m - j,
    {
        proof {
            let nxt = kept@.take(j + 1);
            assert(nxt.drop_last() =~= kept@.take(j as int));
            assert(nxt.last() == kept@[j as int]);
        }
        if kept[j] == ',' {
            if commas == 0 {
                p = j;
            }
            commas = commas + 1;
        }
        j = j + 1;
    }
    proof {
        assert(kept@.take(m as int) =~= kept@);
    }
    if commas >= 2 {
        return Err("valid sizes: 1 and 2");
    }
    if commas == 0 {
        proof {
            assert(kept@.subrange(0, m as int) =~= kept@);
        }
        match parse_field(&kept, 0, m) {
            Some(v) => Ok(Coords(v, v)),
            None => Err("number must be a positive integer"),
        }
    } else {
        proof {
            lemma_first_comma_at(kept@, p as int);
            assert(kept@.subrange(0, p as int) =~= kept@.take(p as int));
        }
        let va = parse_field(&kept, 0, p);
        let vb = parse_field(&kept, p + 1, m);
        match (va, vb) {
            (Some(a), Some(b)) => Ok(Coords(a, b)),
            _ => Err("number must be a positive integer"),
        }
    }
}

} // verus!
