//! Character-level helpers on `str` and `String`, each specified over the
//! character sequence that a string views as.
use vstd::prelude::*;

verus! {

/// The prefix relation on character sequences.
pub open spec fn has_prefix(s: Seq<char>, p: Seq<char>) -> bool {
    p.len() <= s.len() && s.subrange(0, p.len() as int) == p
}

/// `s` with every leading `c` removed.
pub open spec fn trim_leading(s: Seq<char>, c: char) -> Seq<char>
    decreases s.len(),
{
    if s.len() > 0 && s[0] == c {
        trim_leading(s.subrange(1, s.len() as int), c)
    } else {
        s
    }
}

/// `s` with every trailing `c` removed.
pub open spec fn trim_trailing(s: Seq<char>, c: char) -> Seq<char>
    decreases s.len(),
{
    if s.len() > 0 && s.last() == c {
        trim_trailing(s.drop_last(), c)
    } else {
        s
    }
}

/// The pieces of `s` between occurrences of `c`; always at least one piece.
pub open spec fn split_on(s: Seq<char>, c: char) -> Seq<Seq<char>>
    decreases s.len(),
{
    if s.len() == 0 {
        seq![Seq::<char>::empty()]
    } else {
        let r = split_on(s.drop_last(), c);
        if s.last() == c {
            r.push(Seq::<char>::empty())
        } else {
            r.update(r.len() - 1, r.last().push(s.last()))
        }
    }
}

/// Splitting always gives at least one piece.
pub proof fn lemma_split_nonempty(s: Seq<char>, c: char)
    ensures
        split_on(s, c).len() >= 1,
    decreases s.len(),
{
    if s.len() > 0 {
        lemma_split_nonempty(s.drop_last(), c);
    }
}

/// The decimal digit for `d < 10`.
pub open spec fn digit(d: nat) -> char {
    if d == 0 { '0' }
    else if d == 1 { '1' }
    else if d == 2 { '2' }
    else if d == 3 { '3' }
    else if d == 4 { '4' }
    else if d == 5 { '5' }
    else if d == 6 { '6' }
    else if d == 7 { '7' }
    else if d == 8 { '8' }
    else { '9' }
}

/// The decimal rendering of `n`, without leading zeros.
pub open spec fn dec(n: nat) -> Seq<char>
    decreases n,
{
    if n < 10 {
        seq![digit(n)]
    } else {
        dec(n / 10).push(digit(n % 10))
    }
}

/// Joining a relative or absolute path component onto a path, as `Path::join` does
/// on Unix: an absolute component replaces the path, otherwise one separator
/// stands between the two.
pub open spec fn join_spec(a: Seq<char>, b: Seq<char>) -> Seq<char> {
    if b.len() > 0 && b[0] == '/' {
        b
    } else if a.len() == 0 || a.last() == '/' {
        a + b
    } else {
        a + seq!['/'] + b
    }
}

/// Whether two strings hold the same characters.
pub fn str_eq(a: &str, b: &str) -> (r: bool)
    ensures
        r == (a@ == b@),
{
    let n = a.unicode_len();
    if n != b.unicode_len() {
        return false;
    }
    let mut i: usize = 0;
    while i < n
        invariant
            n == a@.len(),
            n == b@.len(),
            i <= n,
            a@.subrange(0, i as int) == b@.subrange(0, i as int),
        decreases n - i,
    {
        if a.get_char(i) != b.get_char(i) {
            return false;
        }
        assert(a@.subrange(0, i + 1) == a@.subrange(0, i as int).push(a@[i as int]));
        assert(b@.subrange(0, i + 1) == b@.subrange(0, i as int).push(b@[i as int]));
        i = i + 1;
    }
    assert(a@ == a@.subrange(0, n as int));
    assert(b@ == b@.subrange(0, n as int));
    true
}

/// Whether `s` starts with `p`.
pub fn starts_with(s: &str, p: &str) -> (r: bool)
    ensures
        r == has_prefix(s@, p@),
{
    let n = p.unicode_len();
    if n > s.unicode_len() {
        return false;
    }
    let head = s.substring_char(0, n);
    str_eq(head, p)
}

/// `s` without the prefix `p`, when it has it.
pub fn strip_prefix(s: &str, p: &str) -> (r: Option<String>)
    ensures
        r is Some <==> has_prefix(s@, p@),
        r matches Some(t) ==> t@ == s@.subrange(p@.len() as int, s@.len() as int),
{
    if starts_with(s, p) {
        let t = s.substring_char(p.unicode_len(), s.unicode_len());
        Some(String::from_str(t))
    } else {
        None
    }
}

/// `s` without its leading `c` characters.
pub fn trim_start_char(s: &str, c: char) -> (r: String)
    ensures
        r@ == trim_leading(s@, c),
{
    let n = s.unicode_len();
    let mut i: usize = 0;
    assert(s@.subrange(0, n as int) == s@);
    while i < n && s.get_char(i) == c
        invariant
            n == s@.len(),
            i <= n,
            trim_leading(s@.subrange(i as int, n as int), c) == trim_leading(s@, c),
        decreases n - i,
    {
        assert(s@.subrange(i as int, n as int).subrange(1, n - i) == s@.subrange(i + 1, n as int));
        i = i + 1;
    }
    String::from_str(s.substring_char(i, n))
}

/// `s` without its trailing `c` characters.
pub fn trim_end_char(s: &str, c: char) -> (r: String)
    ensures
        r@ == trim_trailing(s@, c),
{
    let mut j: usize = s.unicode_len();
    assert(s@.subrange(0, j as int) == s@);
    while j > 0 && s.get_char(j - 1) == c
        invariant
            j <= s@.len(),
            trim_trailing(s@.subrange(0, j as int), c) == trim_trailing(s@, c),
        decreases j,
    {
        assert(s@.subrange(0, j as int).drop_last() == s@.subrange(0, j - 1));
        j = j - 1;
    }
    String::from_str(s.substring_char(0, j))
}

/// The pieces of `s` between occurrences of `c`, as `str::split` gives them.
pub fn split_char(s: &str, c: char) -> (r: Vec<String>)
    ensures
        r@.map_values(|t: String| t@) == split_on(s@, c),
{
    let n = s.unicode_len();
    let mut parts: Vec<String> = Vec::new();
    let mut start: usize = 0;
    let mut i: usize = 0;
    proof {
        let e = s@.subrange(0, 0);
        assert(e =~= Seq::<char>::empty());
        assert(split_on(e, c) == seq![Seq::<char>::empty()]);
        assert(parts@.map_values(|t: String| t@) =~= Seq::<Seq<char>>::empty());
        assert(parts@.map_values(|t: String| t@).push(e) =~= split_on(e, c));
    }
    while i < n
        invariant
            n == s@.len(),
            start <= i <= n,
            parts@.map_values(|t: String| t@).push(s@.subrange(start as int, i as int))
                == split_on(s@.subrange(0, i as int), c),
        decreases n - i,
    {
        let ghost prev = s@.subrange(0, i as int);
        assert(s@.subrange(0, i + 1).drop_last() == prev);
        assert(s@.subrange(0, i + 1).last() == s@[i as int]);
        if s.get_char(i) == c {
            let ghost before = parts@;
            let piece = String::from_str(s.substring_char(start, i));
            parts.push(piece);
            assert(parts@.map_values(|t: String| t@) =~= before.map_values(|t: String| t@).push(
                s@.subrange(start as int, i as int),
            ));
            assert(s@.subrange(i + 1, i + 1) =~= Seq::<char>::empty());
            start = i + 1;
        } else {
            assert(s@.subrange(start as int, i + 1) == s@.subrange(start as int, i as int).push(
                s@[i as int],
            ));
        }
        i = i + 1;
    }
    let ghost before = parts@;
    let last = String::from_str(s.substring_char(start, n));
    parts.push(last);
    proof {
        assert(s@.subrange(0, n as int) == s@);
        assert(parts@.map_values(|t: String| t@) =~= before.map_values(|t: String| t@).push(
            s@.subrange(start as int, n as int),
        ));
    }
    parts
}

/// The decimal digit for `d`, as a one-character string.
fn digit_str(d: u64) -> (r: &'static str)
    requires
        d < 10,
    ensures
        r@ == seq![digit(d as nat)],
{
    proof {
        reveal_strlit("0");
        reveal_strlit("1");
        reveal_strlit("2");
        reveal_strlit("3");
        reveal_strlit("4");
        reveal_strlit("5");
        reveal_strlit("6");
        reveal_strlit("7");
        reveal_strlit("8");
        reveal_strlit("9");
    }
    if d == 0 { "0" }
    else if d == 1 { "1" }
    else if d == 2 { "2" }
    else if d == 3 { "3" }
    else if d == 4 { "4" }
    else if d == 5 { "5" }
    else if d == 6 { "6" }
    else if d == 7 { "7" }
    else if d == 8 { "8" }
    else { "9" }
}

/// The decimal rendering of `n`, as `u64`'s `to_string` gives it.
pub fn decimal(n: u64) -> (r: String)
    ensures
        r@ == dec(n as nat),
    decreases n,
{
    if n < 10 {
        String::from_str(digit_str(n))
    } else {
        let mut s = decimal(n / 10);
        s.append(digit_str(n % 10));
        s
    }
}

/// `a` followed by `b`.
pub fn concat(a: &str, b: &str) -> (r: String)
    ensures
        r@ == a@ + b@,
{
    let mut s = String::from_str(a);
    s.append(b);
    s
}

/// `b` joined onto the path `a`.
pub fn join_path(a: &str, b: &str) -> (r: String)
    ensures
        r@ == join_spec(a@, b@),
{
    let n = a.unicode_len();
    if b.unicode_len() > 0 && b.get_char(0) == '/' {
        String::from_str(b)
    } else if n == 0 || a.get_char(n - 1) == '/' {
        concat(a, b)
    } else {
        let mut s = String::from_str(a);
        proof {
            reveal_strlit("/");
        }
        s.append("/");
        s.append(b);
        s
    }
}

/// Splitting around one separator splits the two sides apart.
pub proof fn lemma_split_concat(a: Seq<char>, b: Seq<char>, c: char)
    ensures
        split_on(a + seq![c] + b, c) == split_on(a, c) + split_on(b, c),
    decreases b.len(),
{
    let x = a + seq![c] + b;
    if b.len() == 0 {
        assert(x.drop_last() =~= a);
        assert(split_on(b, c) =~= seq![Seq::<char>::empty()]);
        assert(split_on(x, c) =~= split_on(a, c) + split_on(b, c));
    } else {
        let b2 = b.drop_last();
        lemma_split_concat(a, b2, c);
        lemma_split_nonempty(b2, c);
        lemma_split_nonempty(a, c);
        assert(x.drop_last() =~= a + seq![c] + b2);
        assert(x.last() == b.last());
        let r = split_on(a, c) + split_on(b2, c);
        if b.last() == c {
            assert(split_on(x, c) =~= split_on(a, c) + split_on(b, c));
        } else {
            assert(r.update(r.len() - 1, r.last().push(b.last())) =~= split_on(a, c) + split_on(
                b2,
                c,
            ).update(split_on(b2, c).len() - 1, split_on(b2, c).last().push(b.last())));
            assert(split_on(x, c) =~= split_on(a, c) + split_on(b, c));
        }
    }
}

/// A text without the separator is one piece.
pub proof fn lemma_split_single(s: Seq<char>, c: char)
    requires
        !s.contains(c),
    ensures
        split_on(s, c) == seq![s],
    decreases s.len(),
{
    if s.len() == 0 {
        assert(s =~= Seq::<char>::empty());
    } else {
        let s2 = s.drop_last();
        assert(!s2.contains(c)) by {
            if s2.contains(c) {
                let k = choose|k: int| 0 <= k < s2.len() && s2[k] == c;
                assert(s[k] == c);
            }
        }
        lemma_split_single(s2, c);
        assert(s.last() != c) by {
            assert(s[s.len() - 1] == s.last());
        }
        assert(s2.push(s.last()) =~= s);
    }
}

} // verus!
