use vstd::prelude::*;

verus! {

/// The decimal digit `d`, for `d < 10`.
pub open spec fn digit_char(d: nat) -> char {
    seq!['0', '1', '2', '3', '4', '5', '6', '7', '8', '9'][d as int]
}

/// The decimal digits of `n`, most significant first, without leading zeros.
pub open spec fn decimal_of(n: nat) -> Seq<char>
    decreases n,
{
    if n < 10 {
        seq![digit_char(n)]
    } else {
        decimal_of(n / 10) + seq![digit_char(n % 10)]
    }
}

/// Relies on `ToString` for `usize`, which writes the number in decimal.
#[verifier::external_body]
fn decimal(n: usize) -> (r: String)
    ensures
        r@ == decimal_of(n as nat),
{
    n.to_string()
}

/// `dir` and `file` joined by one separator; `file` alone where `dir` is empty.
pub open spec fn joined(dir: Seq<char>, file: Seq<char>) -> Seq<char> {
    if dir.len() == 0 {
        file
    } else if dir.last() == '/' {
        dir + file
    } else {
        dir + seq!['/'] + file
    }
}

/// Whether a `..` component starts at position `i` of `p`.
pub open spec fn parent_step_at(p: Seq<char>, i: int) -> bool {
    0 <= i && i + 1 < p.len() && p[i] == '.' && p[i + 1] == '.' && (i == 0 || p[i - 1] == '/')
        && (i + 2 == p.len() || p[i + 2] == '/')
}

/// A path that names a place inside the organized folder: relative, not empty,
/// and without a component that climbs out of it.
pub open spec fn within_root(p: Seq<char>) -> bool {
    p.len() > 0 && p[0] != '/' && !(exists|i: int| parent_step_at(p, i))
}

/// Searching the positions below `i` backwards: where the extension of the last
/// component begins (its last dot, unless that dot opens the component), or the
/// length of `p` where it has none.
pub open spec fn ext_search(p: Seq<char>, i: int) -> int
    decreases i,
{
    if i <= 0 {
        p.len() as int
    } else if p[i - 1] == '/' {
        p.len() as int
    } else if p[i - 1] == '.' && i - 1 > 0 && p[i - 2] != '/' {
        i - 1
    } else {
        ext_search(p, i - 1)
    }
}

proof fn lemma_ext_search_bounds(p: Seq<char>, i: int)
    requires
        0 <= i <= p.len(),
    ensures
        0 <= ext_search(p, i) <= p.len(),
    decreases i,
{
    if i > 0 {
        lemma_ext_search_bounds(p, i - 1);
    }
}

pub open spec fn ext_start(p: Seq<char>) -> int {
    ext_search(p, p.len() as int)
}

/// The `k`-th name tried for destination `d`: `d` itself, then `d` with ` (k)`
/// inserted before its extension.
pub open spec fn candidate(d: Seq<char>, k: nat) -> Seq<char> {
    if k == 0 {
        d
    } else {
        d.subrange(0, ext_start(d)) + seq![' ', '('] + decimal_of(k) + seq![')'] + d.subrange(
            ext_start(d),
            d.len() as int,
        )
    }
}

/// Whether some path of `used` is `s`.
pub open spec fn taken(used: Seq<String>, s: Seq<char>) -> bool {
    exists|j: int| 0 <= j < used.len() && used[j]@ == s
}

/// The length of the longest path among the first `n` of `used`.
pub open spec fn longest(used: Seq<String>, n: int) -> nat
    decreases n,
{
    if n <= 0 {
        0
    } else {
        let rest = longest(used, n - 1);
        if used[n - 1]@.len() > rest {
            used[n - 1]@.len()
        } else {
            rest
        }
    }
}

/// The last resort for `d`: a run of underscores before its extension, longer
/// than any path of `used`.
pub open spec fn fallback(d: Seq<char>, used: Seq<String>) -> Seq<char> {
    d.subrange(0, ext_start(d)) + Seq::new(longest(used, used.len() as int) + 1, |i: int| '_')
        + d.subrange(ext_start(d), d.len() as int)
}

/// The first of the candidates `k..=limit` for `d` that `used` does not hold, or the fallback.
pub open spec fn first_free(d: Seq<char>, used: Seq<String>, k: nat, limit: nat) -> Seq<char>
    decreases limit - k,
{
    if !taken(used, candidate(d, k)) {
        candidate(d, k)
    } else if k >= limit {
        fallback(d, used)
    } else {
        first_free(d, used, k + 1, limit)
    }
}

/// Where a file meant for `d` goes when the paths of `used` are already claimed.
pub open spec fn resolve(d: Seq<char>, used: Seq<String>) -> Seq<char> {
    first_free(d, used, 0, used.len())
}

proof fn lemma_longest_bounds(used: Seq<String>, n: int, j: int)
    requires
        0 <= j < n <= used.len(),
    ensures
        used[j]@.len() <= longest(used, n),
    decreases n,
{
    if j < n - 1 {
        lemma_longest_bounds(used, n - 1, j);
    }
}

proof fn lemma_fallback_free(d: Seq<char>, used: Seq<String>)
    ensures
        !taken(used, fallback(d, used)),
{
    let f = fallback(d, used);
    assert forall|j: int| 0 <= j < used.len() implies used[j]@ != f by {
        lemma_longest_bounds(used, used.len() as int, j);
    }
}

proof fn lemma_first_free_free(d: Seq<char>, used: Seq<String>, k: nat, limit: nat)
    ensures
        !taken(used, first_free(d, used, k, limit)),
    decreases limit - k,
{
    if !taken(used, candidate(d, k)) {
    } else if k >= limit {
        lemma_fallback_free(d, used);
    } else {
        lemma_first_free_free(d, used, k + 1, limit);
    }
}

/// A resolved destination is never one that was already claimed.
pub proof fn lemma_resolve_free(d: Seq<char>, used: Seq<String>)
    ensures
        !taken(used, resolve(d, used)),
{
    lemma_first_free_free(d, used, 0, used.len());
}

/// Text that can neither start a component nor make one climb.
pub open spec fn plain_text(ins: Seq<char>) -> bool {
    ins.len() > 0 && forall|i: int| 0 <= i < ins.len() ==> ins[i] != '.' && ins[i] != '/'
}

proof fn lemma_decimal_plain(n: nat)
    ensures
        plain_text(decimal_of(n)),
    decreases n,
{
    let digits = seq!['0', '1', '2', '3', '4', '5', '6', '7', '8', '9'];
    assert forall|d: nat| d < 10 implies digit_char(d) != '.' && digit_char(d) != '/' by {
        assert(digit_char(d) == digits[d as int]);
    }
    if n >= 10 {
        lemma_decimal_plain(n / 10);
    }
}

proof fn lemma_insert_within_root(d: Seq<char>, e: int, ins: Seq<char>)
    requires
        within_root(d),
        0 <= e <= d.len(),
        plain_text(ins),
    ensures
        within_root(d.subrange(0, e) + ins + d.subrange(e, d.len() as int)),
{
    let a = d.subrange(0, e);
    let b = d.subrange(e, d.len() as int);
    let r = a + ins + b;
    let m = ins.len() as int;
    assert(r.len() == d.len() + m);
    assert forall|i: int| 0 <= i < r.len() implies r[i] == (if i < e {
        d[i]
    } else if i < e + m {
        ins[i - e]
    } else {
        d[i - m]
    }) by {}
    if e > 0 {
        assert(r[0] == d[0]);
    } else {
        assert(r[0] == ins[0]);
    }
    assert forall|i: int| !parent_step_at(r, i) by {
        if parent_step_at(r, i) {
            if i + 1 < e {
                assert(parent_step_at(d, i));
            } else if i >= e + m {
                assert(parent_step_at(d, i - m));
            }
        }
    }
}

proof fn lemma_candidate_within_root(d: Seq<char>, k: nat)
    requires
        within_root(d),
    ensures
        within_root(candidate(d, k)),
{
    if k > 0 {
        let e = ext_start(d);
        lemma_ext_search_bounds(d, d.len() as int);
        let ins = seq![' ', '('] + decimal_of(k) + seq![')'];
        lemma_decimal_plain(k);
        assert(plain_text(ins)) by {
            assert forall|i: int| 0 <= i < ins.len() implies ins[i] != '.' && ins[i] != '/' by {
                if 2 <= i < 2 + decimal_of(k).len() {
                    assert(ins[i] == decimal_of(k)[i - 2]);
                }
            }
        }
        lemma_insert_within_root(d, e, ins);
        assert(candidate(d, k) =~= d.subrange(0, e) + ins + d.subrange(e, d.len() as int));
    }
}

proof fn lemma_first_free_within_root(d: Seq<char>, used: Seq<String>, k: nat, limit: nat)
    requires
        within_root(d),
    ensures
        within_root(first_free(d, used, k, limit)),
    decreases limit - k,
{
    lemma_candidate_within_root(d, k);
    if taken(used, candidate(d, k)) {
        if k >= limit {
            lemma_ext_search_bounds(d, d.len() as int);
            let ins = Seq::new(longest(used, used.len() as int) + 1, |i: int| '_');
            lemma_insert_within_root(d, ext_start(d), ins);
        } else {
            lemma_first_free_within_root(d, used, k + 1, limit);
        }
    }
}

/// Renaming a destination to avoid a collision keeps it inside the organized folder.
pub proof fn lemma_resolve_within_root(d: Seq<char>, used: Seq<String>)
    requires
        within_root(d),
    ensures
        within_root(resolve(d, used)),
{
    lemma_first_free_within_root(d, used, 0, used.len());
}

/// Joins a folder and a file name with one separator.
pub fn join(dir: &str, file: &str) -> (r: String)
    ensures
        r@ == joined(dir@, file@),
{
    let n = dir.unicode_len();
    if n == 0 {
        return file.to_owned();
    }
    let mut r = dir.to_owned();
    if dir.get_char(n - 1) != '/' {
        r.append("/");
        proof {
            reveal_strlit("/");
        }
    }
    r.append(file);
    r
}

/// Whether `p` stays inside the organized folder.
pub fn is_within_root(p: &str) -> (r: bool)
    ensures
        r == within_root(p@),
{
    let n = p.unicode_len();
    if n == 0 || p.get_char(0) == '/' {
        return false;
    }
    let mut i: usize = 0;
    while n > 0 && i < n - 1
        invariant
            n == p@.len(),
            i <= n,
            forall|j: int| 0 <= j < i ==> !parent_step_at(p@, j),
        decreases n - i,
    {
        if p.get_char(i) == '.' && p.get_char(i + 1) == '.' && (i == 0 || p.get_char(i - 1) == '/')
            && (i + 2 == n || p.get_char(i + 2) == '/') {
            assert(parent_step_at(p@, i as int));
            return false;
        }
        i = i + 1;
    }
    true
}

/// Where the extension of the last component of `p` begins.
fn find_ext_start(p: &str) -> (r: usize)
    ensures
        r == ext_start(p@),
        r <= p@.len(),
{
    let n = p.unicode_len();
    let mut i = n;
    proof {
        lemma_ext_search_bounds(p@, n as int);
    }
    while i > 0
        invariant
            i <= n,
            n == p@.len(),
            ext_search(p@, n as int) == ext_search(p@, i as int),
        decreases i,
    {
        let c = p.get_char(i - 1);
        if c == '/' {
            return n;
        }
        if c == '.' && i - 1 > 0 && p.get_char(i - 2) != '/' {
            return i - 1;
        }
        i = i - 1;
    }
    n
}

/// Whether some string of `used` equals `s`.
fn holds(used: &Vec<String>, s: &String) -> (r: bool)
    ensures
        r == taken(used@, s@),
{
    let mut j: usize = 0;
    while j < used.len()
        invariant
            j <= used.len(),
            forall|i: int| 0 <= i < j ==> used@[i]@ != s@,
        decreases used.len() - j,
    {
        if used[j] == *s {
            return true;
        }
        j = j + 1;
    }
    false
}

/// The `k`-th name tried for `d`.
fn make_candidate(d: &str, k: usize) -> (r: String)
    ensures
        r@ == candidate(d@, k as nat),
{
    if k == 0 {
        return d.to_owned();
    }
    let e = find_ext_start(d);
    let n = d.unicode_len();
    let mut r = d.substring_char(0, e).to_owned();
    r.append(" (");
    let digits = decimal(k);
    r.append(digits.as_str());
    r.append(")");
    r.append(d.substring_char(e, n));
    proof {
        reveal_strlit(" (");
        reveal_strlit(")");
        assert(r@ =~= candidate(d@, k as nat));
    }
    r
}

/// The last-resort name for `d`.
fn make_fallback(d: &str, used: &Vec<String>) -> (r: String)
    ensures
        r@ == fallback(d@, used@),
{
    let mut most: usize = 0;
    let mut j: usize = 0;
    while j < used.len()
        invariant
            j <= used.len(),
            most == longest(used@, j as int),
        decreases used.len() - j,
    {
        let len = used[j].as_str().unicode_len();
        if len > most {
            most = len;
        }
        j = j + 1;
    }
    let e = find_ext_start(d);
    let n = d.unicode_len();
    let mut r = d.substring_char(0, e).to_owned();
    proof {
        reveal_strlit("_");
    }
    r.append("_");
    let mut w: usize = 0;
    while w < most
        invariant
            w <= most,
            e <= d@.len(),
            most == longest(used@, used@.len() as int),
            r@ =~= d@.subrange(0, e as int) + Seq::new((w + 1) as nat, |i: int| '_'),
        decreases most - w,
    {
        proof {
            reveal_strlit("_");
        }
        r.append("_");
        w = w + 1;
        assert(r@ =~= d@.subrange(0, e as int) + Seq::new((w + 1) as nat, |i: int| '_'));
    }
    r.append(d.substring_char(e, n));
    assert(r@ =~= fallback(d@, used@));
    r
}

/// The destination for a file meant for `d`, given the paths already claimed:
/// `d` when it is free, else the first free `d (k)`, numbering from one.
pub fn resolve_destination(d: &str, used: &Vec<String>) -> (r: String)
    ensures
        r@ == resolve(d@, used@),
        !taken(used@, r@),
{
    proof {
        lemma_resolve_free(d@, used@);
    }
    let limit = used.len();
    let mut k: usize = 0;
    loop
        invariant
            k <= limit,
            limit == used@.len(),
            !taken(used@, resolve(d@, used@)),
            resolve(d@, used@) == first_free(d@, used@, k as nat, limit as nat),
        decreases limit - k,
    {
        let c = make_candidate(d, k);
        if !holds(used, &c) {
            return c;
        }
        if k >= limit {
            return make_fallback(d, used);
        }
        k = k + 1;
    }
}

} // verus!
