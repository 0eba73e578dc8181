use vstd::prelude::*;

use crate::text::push_char;

verus! {

/// Spaces, tabs and carriage returns around names and values carry no meaning.
pub open spec fn is_blank(c: char) -> bool {
    c == ' ' || c == '\t' || c == '\r'
}

pub open spec fn trim_start(s: Seq<char>) -> Seq<char>
    decreases s.len(),
{
    if s.len() > 0 && is_blank(s[0]) {
        trim_start(s.drop_first())
    } else {
        s
    }
}

pub open spec fn trim_end(s: Seq<char>) -> Seq<char>
    decreases s.len(),
{
    if s.len() > 0 && is_blank(s.last()) {
        trim_end(s.drop_last())
    } else {
        s
    }
}

/// `s` without blanks at either end.
pub open spec fn trim(s: Seq<char>) -> Seq<char> {
    trim_end(trim_start(s))
}

/// The name of the section that a line opens: `[name]`, blanks allowed around both.
pub open spec fn section_of(line: Seq<char>) -> Option<Seq<char>> {
    let t = trim(line);
    if t.len() >= 2 && t[0] == '[' && t.last() == ']' {
        Some(trim(t.subrange(1, t.len() - 1)))
    } else {
        None
    }
}

/// The key and value of a line `key = value`, split at the first `=`; comment lines
/// (starting with `;` or `#`) carry none.
pub open spec fn entry_of(line: Seq<char>) -> Option<(Seq<char>, Seq<char>)> {
    let t = trim(line);
    if t.len() == 0 || t[0] == ';' || t[0] == '#' || section_of(line) is Some {
        None
    } else if exists|k: int| 0 <= k < t.len() && t[k] == '=' {
        let k = choose|k: int|
            0 <= k < t.len() && t[k] == '=' && forall|j: int| 0 <= j < k ==> t[j] != '=';
        Some((trim(t.subrange(0, k)), trim(t.subrange(k + 1, t.len() as int))))
    } else {
        None
    }
}

/// The value of the first `key` in section `section` of `lines`, where `inside` says
/// whether the lines start within that section.
pub open spec fn lookup(lines: Seq<Seq<char>>, section: Seq<char>, key: Seq<char>, inside: bool) -> Option<
    Seq<char>,
>
    decreases lines.len(),
{
    if lines.len() == 0 {
        None
    } else {
        let line = lines[0];
        match section_of(line) {
            Some(name) => lookup(lines.drop_first(), section, key, name == section),
            None => match entry_of(line) {
                Some(kv) => if inside && kv.0 == key {
                    Some(kv.1)
                } else {
                    lookup(lines.drop_first(), section, key, inside)
                },
                None => lookup(lines.drop_first(), section, key, inside),
            },
        }
    }
}

/// The digits `0` to `9` as a number.
pub open spec fn decimal_value(s: Seq<char>) -> nat
    decreases s.len(),
{
    if s.len() == 0 {
        0
    } else {
        (decimal_value(s.drop_last()) * 10 + (s.last() as nat - '0' as nat)) as nat
    }
}

pub open spec fn all_digits(s: Seq<char>) -> bool {
    forall|i: int| 0 <= i < s.len() ==> '0' <= #[trigger] s[i] && s[i] <= '9'
}

proof fn lemma_trim_start(s: Seq<char>, i: int)
    requires
        0 <= i <= s.len(),
        forall|j: int| 0 <= j < i ==> is_blank(#[trigger] s[j]),
        i == s.len() || !is_blank(s[i]),
    ensures
        trim_start(s) == s.subrange(i, s.len() as int),
    decreases i,
{
    if i == 0 {
        assert(s.subrange(0, s.len() as int) =~= s);
    } else {
        assert(is_blank(s[0]));
        let t = s.drop_first();
        assert forall|j: int| 0 <= j < i - 1 implies is_blank(#[trigger] t[j]) by {
            assert(is_blank(s[j + 1]));
        }
        lemma_trim_start(t, i - 1);
        assert(t.subrange(i - 1, t.len() as int) =~= s.subrange(i, s.len() as int));
    }
}

proof fn lemma_trim_end(s: Seq<char>, e: int)
    requires
        0 <= e <= s.len(),
        forall|j: int| e <= j < s.len() ==> is_blank(#[trigger] s[j]),
        e == 0 || !is_blank(s[e - 1]),
    ensures
        trim_end(s) == s.subrange(0, e),
    decreases s.len() - e,
{
    if e == s.len() {
        assert(s.subrange(0, e) =~= s);
    } else {
        assert(is_blank(s.last()));
        let t = s.drop_last();
        assert forall|j: int| e <= j < t.len() implies is_blank(#[trigger] t[j]) by {
            assert(is_blank(s[j]));
        }
        lemma_trim_end(t, e);
        assert(t.subrange(0, e) =~= s.subrange(0, e));
    }
}

fn blank(c: char) -> (r: bool)
    ensures
        r == is_blank(c),
{
    c == ' ' || c == '\t' || c == '\r'
}

/// Copies the characters `from..to` of `s` into a new string.
fn copy_range(s: &str, from: usize, to: usize) -> (r: String)
    requires
        from <= to <= s@.len(),
    ensures
        r@ == s@.subrange(from as int, to as int),
{
    let mut r = String::new();
    let mut i = from;
    while i < to
        invariant
            from <= i <= to <= s@.len(),
            r@ == s@.subrange(from as int, i as int),
        decreases to - i,
    {
        push_char(&mut r, s.get_char(i));
        i = i + 1;
        assert(r@ =~= s@.subrange(from as int, i as int));
    }
    r
}

/// The bounds of `s@.subrange(from, to)` without its blanks at either end.
fn trim_bounds(s: &str, from: usize, to: usize) -> (r: (usize, usize))
    requires
        from <= to <= s@.len(),
    ensures
        from <= r.0 <= r.1 <= to,
        trim(s@.subrange(from as int, to as int)) == s@.subrange(r.0 as int, r.1 as int),
{
    let ghost t = s@.subrange(from as int, to as int);
    let mut i = from;
    while i < to && blank(s.get_char(i))
        invariant
            from <= i <= to <= s@.len(),
            t == s@.subrange(from as int, to as int),
            forall|j: int| from <= j < i ==> is_blank(#[trigger] s@[j]),
        decreases to - i,
    {
        i = i + 1;
    }
    proof {
        assert forall|j: int| 0 <= j < i - from implies is_blank(#[trigger] t[j]) by {
            assert(is_blank(s@[from + j]));
        }
        lemma_trim_start(t, i - from);
    }
    let ghost u = s@.subrange(i as int, to as int);
    assert(t.subrange(i - from, t.len() as int) =~= u);
    let mut e = to;
    while e > i && blank(s.get_char(e - 1))
        invariant
            i <= e <= to <= s@.len(),
            u == s@.subrange(i as int, to as int),
            forall|j: int| e <= j < to ==> is_blank(#[trigger] s@[j]),
        decreases e - i,
    {
        e = e - 1;
    }
    proof {
        assert forall|j: int| e - i <= j < u.len() implies is_blank(#[trigger] u[j]) by {
            assert(is_blank(s@[i + j]));
        }
        lemma_trim_end(u, e - i);
        assert(u.subrange(0, e - i) =~= s@.subrange(i as int, e as int));
    }
    (i, e)
}

/// What one line of a configuration file holds.
pub enum IniLine {
    /// `[name]`: the start of a section.
    Section(String),
    /// `key = value`.
    Entry(String, String),
    /// A blank line, a comment, or text without `=`.
    Other,
}

/// Reads one line of a configuration file.
pub fn parse_line(line: &str) -> (r: IniLine)
    ensures
        match section_of(line@) {
            Some(name) => r matches IniLine::Section(n) && n@ == name,
            None => match entry_of(line@) {
                Some(kv) => r matches IniLine::Entry(k, v) && k@ == kv.0 && v@ == kv.1,
                None => r is Other,
            },
        },
{
    let n = line.unicode_len();
    let (a, b) = trim_bounds(line, 0, n);
    assert(line@.subrange(0, n as int) =~= line@);
    let ghost t = trim(line@);
    if b - a >= 2 && line.get_char(a) == '[' && line.get_char(b - 1) == ']' {
        let (c, d) = trim_bounds(line, a + 1, b - 1);
        assert(t.subrange(1, t.len() - 1) =~= line@.subrange(a + 1, b - 1));
        return IniLine::Section(copy_range(line, c, d));
    }
    if b == a || line.get_char(a) == ';' || line.get_char(a) == '#' {
        return IniLine::Other;
    }
    let mut k = a;
    while k < b && line.get_char(k) != '='
        invariant
            a <= k <= b <= line@.len(),
            t == line@.subrange(a as int, b as int),
            forall|j: int| a <= j < k ==> #[trigger] line@[j] != '=',
        decreases b - k,
    {
        k = k + 1;
    }
    if k == b {
        assert(!exists|j: int| 0 <= j < t.len() && t[j] == '=') by {
            assert forall|j: int| 0 <= j < t.len() implies t[j] != '=' by {
                assert(line@[a + j] != '=');
            }
        }
        return IniLine::Other;
    }
    let ghost kk = (k - a) as int;
    assert(t[kk] == '=');
    assert(forall|j: int| 0 <= j < kk ==> t[j] != '=') by {
        assert forall|j: int| 0 <= j < kk implies t[j] != '=' by {
            assert(line@[a + j] != '=');
        }
    }
    let ghost chosen = choose|k: int|
        0 <= k < t.len() && t[k] == '=' && forall|j: int| 0 <= j < k ==> t[j] != '=';
    assert(chosen == kk) by {
        if chosen < kk {
            assert(t[chosen] != '=');
        } else if chosen > kk {
            assert(t[kk] != '=');
        }
    }
    let (ka, kb) = trim_bounds(line, a, k);
    let (va, vb) = trim_bounds(line, k + 1, b);
    assert(t.subrange(0, kk) =~= line@.subrange(a as int, k as int));
    assert(t.subrange(kk + 1, t.len() as int) =~= line@.subrange(k + 1, b as int));
    IniLine::Entry(copy_range(line, ka, kb), copy_range(line, va, vb))
}

fn same_text(a: &str, b: &str) -> (r: bool)
    ensures
        r == (a@ == b@),
{
    let n = a.unicode_len();
    if n != b.unicode_len() {
        return false;
    }
    let mut i: usize = 0;
    while i < n
        invariant
            i <= n,
            n == a@.len() && n == b@.len(),
            forall|j: int| 0 <= j < i ==> a@[j] == b@[j],
        decreases n - i,
    {
        if a.get_char(i) != b.get_char(i) {
            assert(a@ != b@) by {
                if a@ == b@ {
                    assert(a@[i as int] == b@[i as int]);
                }
            }
            return false;
        }
        i = i + 1;
    }
    assert(a@ =~= b@);
    true
}

/// The value of the first `key` in section `section` of a configuration file given
/// as its lines.
pub fn ini_lookup(lines: &Vec<String>, section: &str, key: &str) -> (r: Option<String>)
    ensures
        match lookup(lines@.map_values(|l: String| l@), section@, key@, false) {
            Some(v) => r matches Some(s) && s@ == v,
            None => r is None,
        },
{
    let ghost all = lines@.map_values(|l: String| l@);
    let mut inside = false;
    let mut i: usize = 0;
    assert(all.skip(0) =~= all);
    while i < lines.len()
        invariant
            i <= lines@.len(),
            all == lines@.map_values(|l: String| l@),
            lookup(all, section@, key@, false) == lookup(all.skip(i as int), section@, key@, inside),
        decreases lines@.len() - i,
    {
        let ghost rest = all.skip(i as int);
        assert(rest[0] == lines@[i as int]@);
        assert(rest.drop_first() =~= all.skip(i + 1));
        match parse_line(lines[i].as_str()) {
            IniLine::Section(name) => {
                inside = same_text(name.as_str(), section);
            },
            IniLine::Entry(k, v) => {
                if inside && same_text(k.as_str(), key) {
                    return Some(v);
                }
            },
            IniLine::Other => {},
        }
        i = i + 1;
    }
    None
}

/// Reads a decimal number of up to nine digits, with blanks allowed around it.
pub fn parse_count(s: &str) -> (r: Option<u32>)
    ensures
        ({
            let t = trim(s@);
            if 0 < t.len() <= 9 && all_digits(t) {
                r == Some(decimal_value(t) as u32)
            } else {
                r is None
            }
        }),
{
    let n = s.unicode_len();
    let (a, b) = trim_bounds(s, 0, n);
    assert(s@.subrange(0, n as int) =~= s@);
    let ghost t = trim(s@);
    if b == a || b - a > 9 {
        return None;
    }
    let mut v: u32 = 0;
    let mut i = a;
    while i < b
        invariant
            a <= i <= b <= s@.len(),
            b - a <= 9,
            t == s@.subrange(a as int, b as int),
            t == trim(s@),
            all_digits(s@.subrange(a as int, i as int)),
            v == decimal_value(s@.subrange(a as int, i as int)),
            v < pow10_spec((i - a) as nat),
        decreases b - i,
    {
        let c = s.get_char(i);
        if c < '0' || c > '9' {
            assert(!all_digits(t)) by {
                assert(t[i - a] == c);
            }
            return None;
        }
        let d = (c as u32) - ('0' as u32);
        proof {
            assert(s@.subrange(a as int, i + 1).drop_last() =~= s@.subrange(a as int, i as int));
            assert(pow10_spec((i + 1 - a) as nat) == 10 * pow10_spec((i - a) as nat));
            assert(v * 10 + d < 10 * pow10_spec((i - a) as nat)) by (nonlinear_arith)
                requires
                    v < pow10_spec((i - a) as nat),
                    d < 10,
            ;
            lemma_pow10_bound((i - a) as nat);
        }
        v = v * 10 + d;
        i = i + 1;
    }
    Some(v)
}

pub open spec fn pow10_spec(k: nat) -> nat
    decreases k,
{
    if k == 0 {
        1
    } else {
        10 * pow10_spec((k - 1) as nat)
    }
}

proof fn lemma_pow10_bound(k: nat)
    requires
        k <= 8,
    ensures
        pow10_spec(k) <= 100_000_000,
{
    reveal_with_fuel(pow10_spec, 9);
    assert(k == 0 || k == 1 || k == 2 || k == 3 || k == 4 || k == 5 || k == 6 || k == 7 || k
        == 8);
}

} // verus!
