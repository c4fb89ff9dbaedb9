use vstd::prelude::*;
use vstd::string::*;

use crate::error::FederationError;
use crate::version::{Identity, Version};

verus! {

pub open spec fn is_digit(c: char) -> bool {
    '0' <= c && c <= '9'
}

pub open spec fn digit_value(c: char) -> nat {
    (c as u32 - '0' as u32) as nat
}

pub open spec fn digit_char(d: nat) -> char {
    if d == 0 { '0' } else if d == 1 { '1' } else if d == 2 { '2' } else if d == 3 { '3' }
    else if d == 4 { '4' } else if d == 5 { '5' } else if d == 6 { '6' } else if d == 7 { '7' }
    else if d == 8 { '8' } else { '9' }
}

pub open spec fn all_digits(s: Seq<char>) -> bool {
    forall|i: int| 0 <= i < s.len() ==> is_digit(#[trigger] s[i])
}

/// The number that a string of decimal digits denotes.
pub open spec fn digits_value(s: Seq<char>) -> nat
    decreases s.len(),
{
    if s.len() == 0 {
        0
    } else {
        digits_value(s.drop_last()) * 10 + digit_value(s.last())
    }
}

/// The shortest decimal text of `n`.
pub open spec fn decimal(n: nat) -> Seq<char>
    decreases n,
{
    if n < 10 {
        seq![digit_char(n)]
    } else {
        decimal(n / 10).push(digit_char(n % 10))
    }
}

/// Index of the last occurrence of `c` in `s`, or -1.
pub open spec fn last_index_of(s: Seq<char>, c: char) -> int
    decreases s.len(),
{
    if s.len() == 0 {
        -1
    } else if s.last() == c {
        s.len() - 1
    } else {
        last_index_of(s.drop_last(), c)
    }
}

/// `v<major>.<minor>`, with both numbers non-empty runs of digits that fit in 32 bits.
pub open spec fn parse_version_text(t: Seq<char>) -> Option<Version> {
    if t.len() == 0 || t[0] != 'v' {
        None
    } else {
        let r = t.subrange(1, t.len() as int);
        let k = last_index_of(r, '.');
        let ma = r.subrange(0, k);
        let mi = r.subrange(k + 1, r.len() as int);
        if k < 0 || ma.len() == 0 || mi.len() == 0 || !all_digits(ma) || !all_digits(mi)
            || digits_value(ma) > u32::MAX || digits_value(mi) > u32::MAX {
            None
        } else {
            Some(Version { major: digits_value(ma) as u32, minor: digits_value(mi) as u32 })
        }
    }
}

/// The parts of `<domain>/<name>/v<major>.<minor>`: the last two `/` split it,
/// and the name must not be empty.
pub open spec fn parse_url_text(s: Seq<char>) -> Option<(Seq<char>, Seq<char>, Version)> {
    let i = last_index_of(s, '/');
    let before = s.subrange(0, i);
    let j = last_index_of(before, '/');
    if i < 0 || j < 0 || j + 1 >= i {
        None
    } else {
        match parse_version_text(s.subrange(i + 1, s.len() as int)) {
            Some(v) => Some((before.subrange(0, j), before.subrange(j + 1, i), v)),
            None => None,
        }
    }
}

pub open spec fn url_text(domain: Seq<char>, name: Seq<char>, v: Version) -> Seq<char> {
    domain + seq!['/'] + name + seq!['/', 'v'] + decimal(v.major as nat) + seq!['.'] + decimal(
        v.minor as nat,
    )
}

proof fn lemma_digit_char(d: nat)
    requires
        d < 10,
    ensures
        is_digit(digit_char(d)),
        digit_value(digit_char(d)) == d,
{
}

/// The decimal text of `n` is a non-empty run of digits that denotes `n`.
pub proof fn lemma_decimal(n: nat)
    ensures
        decimal(n).len() > 0,
        all_digits(decimal(n)),
        digits_value(decimal(n)) == n,
    decreases n,
{
    if n < 10 {
        lemma_digit_char(n);
        assert(decimal(n).drop_last() =~= Seq::<char>::empty());
        assert(digits_value(decimal(n)) == digits_value(decimal(n).drop_last()) * 10
            + digit_value(decimal(n).last()));
    } else {
        lemma_decimal(n / 10);
        lemma_digit_char(n % 10);
        let d = decimal(n);
        assert(d.drop_last() =~= decimal(n / 10));
        assert(d.last() == digit_char(n % 10));
        assert((n / 10) * 10 + n % 10 == n) by (nonlinear_arith);
        assert(digits_value(d) == digits_value(d.drop_last()) * 10 + digit_value(d.last()));
        assert forall|i: int| 0 <= i < d.len() implies is_digit(#[trigger] d[i]) by {
            if i < d.len() - 1 {
                assert(d[i] == decimal(n / 10)[i]);
            }
        }
    }
}

proof fn lemma_digits_no_sep(s: Seq<char>, c: char)
    requires
        all_digits(s),
        !is_digit(c),
    ensures
        !s.contains(c),
{
    if s.contains(c) {
        let i = choose|i: int| 0 <= i < s.len() && s[i] == c;
        assert(is_digit(s[i]));
    }
}

/// `last_index_of` is -1 or the index of the last `c`.
pub proof fn lemma_last_index_of(s: Seq<char>, c: char)
    ensures
        -1 <= last_index_of(s, c) < s.len(),
        last_index_of(s, c) >= 0 ==> s[last_index_of(s, c)] == c,
        forall|k: int| last_index_of(s, c) < k < s.len() ==> s[k] != c,
    decreases s.len(),
{
    if s.len() > 0 && s.last() != c {
        lemma_last_index_of(s.drop_last(), c);
        assert forall|k: int| last_index_of(s, c) < k < s.len() implies s[k] != c by {
            if k < s.len() - 1 {
                assert(s[k] == s.drop_last()[k]);
            }
        }
    }
}

proof fn lemma_last_index_after(a: Seq<char>, c: char, b: Seq<char>)
    requires
        !b.contains(c),
    ensures
        last_index_of(a.push(c) + b, c) == a.len(),
    decreases b.len(),
{
    if b.len() == 0 {
        assert(a.push(c) + b =~= a.push(c));
    } else {
        let s = a.push(c) + b;
        assert(s.last() == b.last());
        assert(b.contains(b.last()) ==> true);
        assert(b[b.len() - 1] == b.last());
        assert(s.drop_last() =~= a.push(c) + b.drop_last());
        assert(!b.drop_last().contains(c)) by {
            if b.drop_last().contains(c) {
                let i = choose|i: int| 0 <= i < b.drop_last().len() && b.drop_last()[i] == c;
                assert(b[i] == c);
            }
        }
        lemma_last_index_after(a, c, b.drop_last());
    }
}

proof fn lemma_no_slash_in_version_text(ma: Seq<char>, mi: Seq<char>)
    requires
        all_digits(ma),
        all_digits(mi),
    ensures
        !(seq!['v'] + ma + seq!['.'] + mi).contains('/'),
{
    let b = seq!['v'] + ma + seq!['.'] + mi;
    if b.contains('/') {
        let i = choose|i: int| 0 <= i < b.len() && b[i] == '/';
        if 1 <= i < 1 + ma.len() {
            assert(ma[i - 1] == b[i]);
        } else if i > 1 + ma.len() {
            assert(mi[i - 2 - ma.len()] == b[i]);
        }
    }
}

proof fn lemma_version_text_round_trip(v: Version)
    ensures
        parse_version_text(
            seq!['v'] + decimal(v.major as nat) + seq!['.'] + decimal(v.minor as nat),
        ) == Some(v),
{
    let ma = decimal(v.major as nat);
    let mi = decimal(v.minor as nat);
    lemma_decimal(v.major as nat);
    lemma_decimal(v.minor as nat);
    lemma_digits_no_sep(mi, '.');
    let t = seq!['v'] + ma + seq!['.'] + mi;
    let r = t.subrange(1, t.len() as int);
    assert(r =~= ma.push('.') + mi);
    lemma_last_index_after(ma, '.', mi);
    assert(r.subrange(0, ma.len() as int) =~= ma);
    assert(r.subrange(ma.len() as int + 1, r.len() as int) =~= mi);
}

/// Parsing the text form of a url gives back its parts.
pub proof fn lemma_url_round_trip(domain: Seq<char>, name: Seq<char>, v: Version)
    requires
        valid_url_name(name),
    ensures
        parse_url_text(url_text(domain, name, v)) == Some((domain, name, v)),
{
    let ma = decimal(v.major as nat);
    let mi = decimal(v.minor as nat);
    lemma_decimal(v.major as nat);
    lemma_decimal(v.minor as nat);
    let s = url_text(domain, name, v);
    let a = domain + seq!['/'] + name;
    let b = seq!['v'] + ma + seq!['.'] + mi;
    assert(s =~= a.push('/') + b);
    lemma_no_slash_in_version_text(ma, mi);
    lemma_last_index_after(a, '/', b);
    let i = a.len() as int;
    let before = s.subrange(0, i);
    assert(before =~= domain.push('/') + name);
    lemma_last_index_after(domain, '/', name);
    assert(before.subrange(0, domain.len() as int) =~= domain);
    assert(before.subrange(domain.len() as int + 1, i) =~= name);
    assert(s.subrange(i + 1, s.len() as int) =~= b);
    lemma_version_text_round_trip(v);
}

/// A versioned specification, as written in a `@link(url:)` argument.
#[derive(Debug)]
pub struct Url {
    pub identity: Identity,
    pub version: Version,
}

impl View for Url {
    type V = (Seq<char>, Seq<char>, Version);

    open spec fn view(&self) -> (Seq<char>, Seq<char>, Version) {
        (self.identity.domain@, self.identity.name@, self.version)
    }
}

/// A name that the text form can carry: not empty, and without `/`.
pub open spec fn valid_url_name(name: Seq<char>) -> bool {
    name.len() > 0 && !name.contains('/')
}

proof fn lemma_digits_value_prefix(s: Seq<char>, k: int)
    requires
        0 <= k <= s.len(),
    ensures
        digits_value(s.subrange(0, k)) <= digits_value(s),
    decreases s.len(),
{
    if k < s.len() {
        assert(s.drop_last().subrange(0, k) =~= s.subrange(0, k));
        lemma_digits_value_prefix(s.drop_last(), k);
    } else {
        assert(s.subrange(0, k) =~= s);
    }
}

/// Position of the last `c` in `s[start..end]`, relative to `start`.
fn last_index_in(s: &str, c: char, start: usize, end: usize) -> (r: Option<usize>)
    requires
        start <= end <= s@.len(),
    ensures
        match r {
            Some(k) => k as int == last_index_of(s@.subrange(start as int, end as int), c),
            None => last_index_of(s@.subrange(start as int, end as int), c) == -1,
        },
{
    let mut i: usize = end;
    while i > start
        invariant
            start <= i <= end <= s@.len(),
            last_index_of(s@.subrange(start as int, end as int), c) == last_index_of(
                s@.subrange(start as int, i as int),
                c,
            ),
        decreases i,
    {
        let ch = s.get_char(i - 1);
        assert(s@.subrange(start as int, i as int).last() == ch);
        if ch == c {
            return Some(i - 1 - start);
        }
        assert(s@.subrange(start as int, i as int).drop_last() =~= s@.subrange(
            start as int,
            i as int - 1,
        ));
        i = i - 1;
    }
    None
}

/// The value of the digits `s[start..end]`, if they are a non-empty run of
/// digits that fits in 32 bits.
fn parse_number(s: &str, start: usize, end: usize) -> (r: Option<u32>)
    requires
        start <= end <= s@.len(),
    ensures
        ({
            let t = s@.subrange(start as int, end as int);
            r == if t.len() > 0 && all_digits(t) && digits_value(t) <= u32::MAX {
                Some(digits_value(t) as u32)
            } else {
                None::<u32>
            }
        }),
{
    if start == end {
        return None;
    }
    let ghost t = s@.subrange(start as int, end as int);
    let mut value: u64 = 0;
    let mut i: usize = start;
    while i < end
        invariant
            start <= i <= end <= s@.len(),
            t == s@.subrange(start as int, end as int),
            all_digits(s@.subrange(start as int, i as int)),
            value as nat == digits_value(s@.subrange(start as int, i as int)),
            value <= u32::MAX,
        decreases end - i,
    {
        let ch = s.get_char(i);
        let ghost p = s@.subrange(start as int, i as int + 1);
        assert(t[i - start] == ch);
        if ch < '0' || ch > '9' {
            return None;
        }
        assert(p.drop_last() =~= s@.subrange(start as int, i as int));
        assert(p.last() == ch);
        let d: u64 = (ch as u32 - '0' as u32) as u64;
        value = value * 10 + d;
        assert(p =~= t.subrange(0, i - start + 1));
        if value > u32::MAX as u64 {
            proof {
                lemma_digits_value_prefix(t, i - start + 1);
            }
            return None;
        }
        assert forall|k: int| 0 <= k < p.len() implies is_digit(#[trigger] p[k]) by {
            if k < p.len() - 1 {
                assert(p[k] == s@.subrange(start as int, i as int)[k]);
            }
        }
        i = i + 1;
    }
    assert(s@.subrange(start as int, i as int) =~= t);
    Some(value as u32)
}

fn digit_text(d: u32) -> (r: &'static str)
    requires
        d < 10,
    ensures
        r@ == seq![digit_char(d as nat)],
{
    proof {
        reveal_strlit("0");
        reveal_strlit("1");
        reveal_strlit("2");
        reveal_strlit("3");
        reveal_strlit("4");
        reveal_strlit("5");
        reveal_strlit("6");
        reveal_strlit("7");
        reveal_strlit("8");
        reveal_strlit("9");
    }
    if d == 0 {
        "0"
    } else if d == 1 {
        "1"
    } else if d == 2 {
        "2"
    } else if d == 3 {
        "3"
    } else if d == 4 {
        "4"
    } else if d == 5 {
        "5"
    } else if d == 6 {
        "6"
    } else if d == 7 {
        "7"
    } else if d == 8 {
        "8"
    } else {
        "9"
    }
}

/// The shortest decimal text of `n`.
pub fn decimal_text(n: u32) -> (r: String)
    ensures
        r@ == decimal(n as nat),
    decreases n,
{
    if n < 10 {
        String::from_str(digit_text(n))
    } else {
        let mut r = decimal_text(n / 10);
        r.append(digit_text(n % 10));
        r
    }
}

impl Url {
    /// Reads `<domain>/<name>/v<major>.<minor>`.
    pub fn parse(s: &str) -> (r: Result<Url, FederationError>)
        ensures
            match parse_url_text(s@) {
                Some(t) => r is Ok && r->Ok_0@ == t,
                None => r == Err::<Url, FederationError>(FederationError::MalformedSpecUrl),
            },
    {
        let len = s.unicode_len();
        assert(s@.subrange(0, len as int) =~= s@);
        let i = match last_index_in(s, '/', 0, len) {
            Some(i) => i,
            None => return Err(FederationError::MalformedSpecUrl),
        };
        proof {
            lemma_last_index_of(s@, '/');
        }
        let j = match last_index_in(s, '/', 0, i) {
            Some(j) => j,
            None => return Err(FederationError::MalformedSpecUrl),
        };
        proof {
            lemma_last_index_of(s@.subrange(0, i as int), '/');
        }
        if j + 1 >= i {
            return Err(FederationError::MalformedSpecUrl);
        }
        let ghost t = s@.subrange(i + 1, len as int);
        if i + 1 >= len || s.get_char(i + 1) != 'v' {
            return Err(FederationError::MalformedSpecUrl);
        }
        let ghost r = t.subrange(1, t.len() as int);
        assert(r =~= s@.subrange(i + 2, len as int));
        let k = match last_index_in(s, '.', i + 2, len) {
            Some(k) => k,
            None => return Err(FederationError::MalformedSpecUrl),
        };
        proof {
            lemma_last_index_of(r, '.');
        }
        assert(r.subrange(0, k as int) =~= s@.subrange(i + 2, i + 2 + k));
        assert(r.subrange(k + 1, r.len() as int) =~= s@.subrange(i + 3 + k, len as int));
        let major = match parse_number(s, i + 2, i + 2 + k) {
            Some(m) => m,
            None => return Err(FederationError::MalformedSpecUrl),
        };
        let minor = match parse_number(s, i + 3 + k, len) {
            Some(m) => m,
            None => return Err(FederationError::MalformedSpecUrl),
        };
        let ghost before = s@.subrange(0, i as int);
        assert(before.subrange(0, j as int) =~= s@.subrange(0, j as int));
        assert(before.subrange(j + 1, i as int) =~= s@.subrange(j + 1, i as int));
        let domain = String::from_str(s.substring_char(0, j));
        let name = String::from_str(s.substring_char(j + 1, i));
        Ok(Url { identity: Identity { domain, name }, version: Version { major, minor } })
    }

    /// The text form `<domain>/<name>/v<major>.<minor>`.
    pub fn to_text(&self) -> (r: String)
        ensures
            r@ == url_text(self@.0, self@.1, self@.2),
    {
        proof {
            reveal_strlit("/");
            reveal_strlit("/v");
            reveal_strlit(".");
        }
        let mut r = self.identity.domain.clone();
        r.append("/");
        r.append(self.identity.name.as_str());
        r.append("/v");
        let major = decimal_text(self.version.major);
        r.append(major.as_str());
        r.append(".");
        let minor = decimal_text(self.version.minor);
        r.append(minor.as_str());
        assert(r@ =~= url_text(self@.0, self@.1, self@.2));
        r
    }
}

} // verus!
