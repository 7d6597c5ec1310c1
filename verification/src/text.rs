//! Character-level text utilities shared by the frame decoder and the
//! request builder: whitespace trimming, range copies, and conversions
//! between `&str`/`String` and `Vec<char>`.

use vstd::prelude::*;

verus! {

/// The whitespace characters stripped from frame bodies: space, tab,
/// carriage return and line feed.
pub open spec fn is_ws(c: char) -> bool {
    c == ' ' || c == '\t' || c == '\r' || c == '\n'
}

/// `s` without its leading whitespace.
pub open spec fn trim_start(s: Seq<char>) -> Seq<char>
    decreases s.len(),
{
    if s.len() > 0 && is_ws(s[0]) {
        trim_start(s.drop_first())
    } else {
        s
    }
}

/// `s` without its trailing whitespace.
pub open spec fn trim_end(s: Seq<char>) -> Seq<char>
    decreases s.len(),
{
    if s.len() > 0 && is_ws(s.last()) {
        trim_end(s.drop_last())
    } else {
        s
    }
}

/// `s` without leading and trailing whitespace.
pub open spec fn trim(s: Seq<char>) -> Seq<char> {
    trim_end(trim_start(s))
}

/// If everything before index `i` is whitespace and `i` is the end or a
/// non-whitespace character, then trimming the front stops exactly at `i`.
proof fn lemma_trim_start_at(s: Seq<char>, i: int)
    requires
        0 <= i <= s.len(),
        forall|j: int| 0 <= j < i ==> is_ws(s[j]),
        i == s.len() || !is_ws(s[i]),
    ensures
        trim_start(s) == s.subrange(i, s.len() as int),
    decreases i,
{
    if i == 0 {
        assert(s =~= s.subrange(0, s.len() as int));
    } else {
        assert(is_ws(s[0]));
        let t = s.drop_first();
        assert(forall|j: int| 0 <= j < i - 1 ==> is_ws(#[trigger] t[j]) && t[j] == s[j + 1]);
        if i < s.len() {
            assert(t[i - 1] == s[i]);
        }
        lemma_trim_start_at(t, i - 1);
        assert(t.subrange(i - 1, t.len() as int) =~= s.subrange(i, s.len() as int));
    }
}

/// If everything from index `i` on is whitespace and `i` is the start or
/// preceded by a non-whitespace character, then trimming the back stops
/// exactly at `i`.
proof fn lemma_trim_end_at(s: Seq<char>, i: int)
    requires
        0 <= i <= s.len(),
        forall|j: int| i <= j < s.len() ==> is_ws(s[j]),
        i == 0 || !is_ws(s[i - 1]),
    ensures
        trim_end(s) == s.subrange(0, i),
    decreases s.len() - i,
{
    if i == s.len() {
        assert(s =~= s.subrange(0, i));
    } else {
        assert(is_ws(s.last()));
        let t = s.drop_last();
        assert(forall|j: int| i <= j < t.len() ==> is_ws(#[trigger] t[j]) && t[j] == s[j]);
        if i > 0 {
            assert(t[i - 1] == s[i - 1]);
        }
        lemma_trim_end_at(t, i);
        assert(t.subrange(0, i) =~= s.subrange(0, i));
    }
}

/// Whether `c` is one of the stripped whitespace characters.
pub fn is_ws_char(c: char) -> (r: bool)
    ensures
        r == is_ws(c),
{
    c == ' ' || c == '\t' || c == '\r' || c == '\n'
}

/// Copies `v[from..to]` into a fresh vector.
pub fn copy_range(v: &Vec<char>, from: usize, to: usize) -> (r: Vec<char>)
    requires
        from <= to <= v@.len(),
    ensures
        r@ == v@.subrange(from as int, to as int),
{
    let mut r: Vec<char> = Vec::new();
    let mut i: usize = from;
    while i < to
        invariant
            from <= i <= to <= v@.len(),
            r@ == v@.subrange(from as int, i as int),
        decreases to - i,
    {
        r.push(v[i]);
        assert(v@.subrange(from as int, (i + 1) as int) =~= v@.subrange(
            from as int,
            i as int,
        ).push(v@[i as int]));
        i = i + 1;
    }
    r
}

/// Strips leading and trailing whitespace from a character vector.
pub fn trim_chars(v: &Vec<char>) -> (r: Vec<char>)
    ensures
        r@ == trim(v@),
{
    let n = v.len();
    let mut a: usize = 0;
    while a < n && is_ws_char(v[a])
        invariant
            a <= n,
            n == v@.len(),
            forall|j: int| 0 <= j < a ==> is_ws(v@[j]),
        decreases n - a,
    {
        a = a + 1;
    }
    proof {
        lemma_trim_start_at(v@, a as int);
    }
    if a == n {
        proof {
            assert(trim_start(v@) =~= Seq::<char>::empty());
            lemma_trim_end_at(trim_start(v@), 0);
            assert(trim(v@) =~= Seq::<char>::empty());
        }
        Vec::new()
    } else {
        let mut b: usize = n;
        while is_ws_char(v[b - 1])
            invariant
                a < b <= n,
                n == v@.len(),
                !is_ws(v@[a as int]),
                forall|j: int| b <= j < n ==> is_ws(v@[j]),
            decreases b,
        {
            assert(b - 1 != a);
            b = b - 1;
        }
        proof {
            let t = trim_start(v@);
            assert(t == v@.subrange(a as int, n as int));
            assert(forall|j: int|
                b - a <= j < t.len() ==> is_ws(#[trigger] t[j]) && t[j] == v@[j + a]);
            assert(t[b - a - 1] == v@[b - 1]);
            lemma_trim_end_at(t, b as int - a as int);
            assert(t.subrange(0, b as int - a as int) =~= v@.subrange(a as int, b as int));
        }
        copy_range(v, a, b)
    }
}

/// The characters of `s`, collected into a vector.
pub fn chars_of(s: &str) -> (r: Vec<char>)
    ensures
        r@ == s@,
{
    let n = s.unicode_len();
    let mut r: Vec<char> = Vec::new();
    let mut i: usize = 0;
    while i < n
        invariant
            i <= n,
            n == s@.len(),
            r@ == s@.subrange(0, i as int),
        decreases n - i,
    {
        r.push(s.get_char(i));
        assert(s@.subrange(0, (i + 1) as int) =~= s@.subrange(0, i as int).push(s@[i as int]));
        i = i + 1;
    }
    proof {
        assert(s@.subrange(0, n as int) =~= s@);
    }
    r
}

/// Relies on `String`'s `FromIterator` over `char`: collecting characters
/// yields the string made of exactly those characters, in order.
#[verifier::external_body]
pub fn string_from_chars(v: &Vec<char>) -> (s: String)
    ensures
        s@ == v@,
{
    v.iter().collect()
}

} // verus!
