//! Decimal rendering and path text: joining and the numbered names of renames.
use vstd::prelude::*;
use vstd::string::*;

verus! {

pub open spec fn digit_char(d: nat) -> char {
    if d == 0 { '0' } else if d == 1 { '1' } else if d == 2 { '2' } else if d == 3 { '3' }
    else if d == 4 { '4' } else if d == 5 { '5' } else if d == 6 { '6' } else if d == 7 { '7' }
    else if d == 8 { '8' } else { '9' }
}

/// The decimal digits of `n`, most significant first, without leading zeros.
pub open spec fn decimal(n: nat) -> Seq<char>
    decreases n,
{
    if n < 10 {
        seq![digit_char(n)]
    } else {
        decimal(n / 10).push(digit_char(n % 10))
    }
}

proof fn lemma_decimal_nonempty(n: nat)
    ensures
        decimal(n).len() >= 1,
    decreases n,
{
    if n >= 10 {
        lemma_decimal_nonempty(n / 10);
    }
}

fn digit_text(d: u64) -> (s: &'static str)
    requires
        d < 10,
    ensures
        s@ == seq![digit_char(d as nat)],
{
    proof {
        reveal_strlit("0");
        reveal_strlit("1");
        reveal_strlit("2");
        reveal_strlit("3");
        reveal_strlit("4");
        reveal_strlit("5");
        reveal_strlit("6");
        reveal_strlit("7");
        reveal_strlit("8");
        reveal_strlit("9");
    }
    let s = if d == 0 { "0" } else if d == 1 { "1" } else if d == 2 { "2" } else if d == 3 { "3" }
    else if d == 4 { "4" } else if d == 5 { "5" } else if d == 6 { "6" } else if d == 7 { "7" }
    else if d == 8 { "8" } else { "9" };
    assert(s@ =~= seq![digit_char(d as nat)]);
    s
}

/// The decimal text of a number.
pub fn decimal_text(n: u64) -> (s: String)
    ensures
        s@ == decimal(n as nat),
    decreases n,
{
    if n < 10 {
        String::from_str(digit_text(n))
    } else {
        let mut s = decimal_text(n / 10);
        s.append(digit_text(n % 10));
        assert(s@ =~= decimal(n as nat));
        s
    }
}

/// `base` joined with `rest` by one separator: `rest` alone when it is absolute or
/// `base` is empty, no added separator when `base` already ends with one.
pub open spec fn join_path(base: Seq<char>, rest: Seq<char>) -> Seq<char> {
    if rest.len() > 0 && rest[0] == '/' {
        rest
    } else if base.len() == 0 {
        rest
    } else if base.last() == '/' {
        base + rest
    } else {
        base + seq!['/'] + rest
    }
}

/// Joins two paths as `join_path` states.
pub fn join(base: &str, rest: &str) -> (r: String)
    ensures
        r@ == join_path(base@, rest@),
{
    proof {
        reveal_strlit("/");
    }
    let nr = rest.unicode_len();
    let nb = base.unicode_len();
    if nr > 0 && rest.get_char(0) == '/' {
        String::from_str(rest)
    } else if nb == 0 {
        String::from_str(rest)
    } else if base.get_char(nb - 1) == '/' {
        let mut r = String::from_str(base);
        r.append(rest);
        r
    } else {
        let mut r = String::from_str(base);
        r.append("/");
        r.append(rest);
        r
    }
}

/// Position of the last `c` in `s`, or -1.
pub open spec fn last_index(s: Seq<char>, c: char) -> int
    decreases s.len(),
{
    if s.len() == 0 {
        -1
    } else if s.last() == c {
        s.len() - 1
    } else {
        last_index(s.drop_last(), c)
    }
}

proof fn lemma_last_index_range(s: Seq<char>, c: char)
    ensures
        -1 <= last_index(s, c) < s.len(),
        last_index(s, c) >= 0 ==> s[last_index(s, c)] == c,
    decreases s.len(),
{
    if s.len() > 0 && s.last() != c {
        lemma_last_index_range(s.drop_last(), c);
    }
}

fn find_last(s: &str, c: char) -> (r: Option<usize>)
    ensures
        r is None ==> last_index(s@, c) == -1,
        r is Some ==> r->0 == last_index(s@, c),
{
    let n = s.unicode_len();
    let mut last: Option<usize> = None;
    let mut i: usize = 0;
    while i < n
        invariant
            n == s@.len(),
            i <= n,
            last is None ==> last_index(s@.subrange(0, i as int), c) == -1,
            last is Some ==> last->0 == last_index(s@.subrange(0, i as int), c),
        decreases n - i,
    {
        assert(s@.subrange(0, i + 1).drop_last() =~= s@.subrange(0, i as int));
        if s.get_char(i) == c {
            last = Some(i);
        }
        i = i + 1;
    }
    assert(s@.subrange(0, n as int) =~= s@);
    last
}

/// The directory part of a path: everything up to and including its last `/`.
pub open spec fn dir_part(p: Seq<char>) -> Seq<char> {
    p.subrange(0, last_index(p, '/') + 1)
}

/// The file name of a path: everything after its last `/`.
pub open spec fn name_part(p: Seq<char>) -> Seq<char> {
    p.subrange(last_index(p, '/') + 1, p.len() as int)
}

/// Where the extension of a file name starts: at its last `.`, unless that dot
/// opens the name (as in `.profile`), in which case there is none.
pub open spec fn ext_start(name: Seq<char>) -> int {
    if last_index(name, '.') > 0 {
        last_index(name, '.')
    } else {
        name.len() as int
    }
}

/// The file name without its extension.
pub open spec fn stem_part(p: Seq<char>) -> Seq<char> {
    name_part(p).subrange(0, ext_start(name_part(p)))
}

/// The extension with its dot, or nothing.
pub open spec fn ext_part(p: Seq<char>) -> Seq<char> {
    name_part(p).subrange(ext_start(name_part(p)), name_part(p).len() as int)
}

/// The `counter`-th alternative name for a path: `stem_counter.ext` beside it.
pub open spec fn candidate_name(p: Seq<char>, counter: nat) -> Seq<char> {
    dir_part(p) + stem_part(p) + seq!['_'] + decimal(counter) + ext_part(p)
}

/// A path is its directory, stem and extension put back together.
pub proof fn lemma_path_parts(p: Seq<char>)
    ensures
        p == dir_part(p) + stem_part(p) + ext_part(p),
{
    lemma_last_index_range(p, '/');
    lemma_last_index_range(name_part(p), '.');
    assert(p =~= dir_part(p) + stem_part(p) + ext_part(p));
}

/// An alternative name never equals the path it stands for.
pub proof fn lemma_candidate_differs(p: Seq<char>, counter: nat)
    ensures
        candidate_name(p, counter) != p,
        candidate_name(p, counter).len() > p.len(),
{
    lemma_path_parts(p);
    lemma_decimal_nonempty(counter);
}

/// Builds the `counter`-th alternative name for a path.
pub fn rename_candidate(path: &str, counter: u64) -> (r: String)
    ensures
        r@ == candidate_name(path@, counter as nat),
{
    proof {
        reveal_strlit("_");
        lemma_last_index_range(path@, '/');
    }
    let n = path.unicode_len();
    let name_start: usize = match find_last(path, '/') {
        Some(k) => k + 1,
        None => 0,
    };
    let name = path.substring_char(name_start, n);
    proof {
        lemma_last_index_range(name@, '.');
    }
    let m = name.unicode_len();
    let dot: usize = match find_last(name, '.') {
        Some(k) => if k > 0 { k } else { m },
        None => m,
    };
    let mut r = String::from_str(path.substring_char(0, name_start));
    r.append(name.substring_char(0, dot));
    r.append("_");
    let digits = decimal_text(counter);
    r.append(digits.as_str());
    r.append(name.substring_char(dot, m));
    assert(r@ =~= candidate_name(path@, counter as nat));
    r
}

} // verus!
