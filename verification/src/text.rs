use vstd::prelude::*;

verus! {

/// Appends one character to a string.
///
/// Trusted: calls `String::push`, whose documentation states that it appends the
/// given character to the end of the string; the contract says exactly that.
#[verifier::external_body]
pub fn push_char(s: &mut String, c: char)
    ensures
        final(s)@ == old(s)@.push(c),
{
    s.push(c);
}

/// The characters of `s`, as a vector.
pub fn chars_of(s: &str) -> (v: Vec<char>)
    ensures
        v@ == s@,
{
    let n = s.unicode_len();
    let mut v: Vec<char> = Vec::new();
    let mut i: usize = 0;
    while i < n
        invariant
            n == s@.len(),
            i <= n,
            v@ == s@.subrange(0, i as int),
        decreases n - i,
    {
        let c = s.get_char(i);
        v.push(c);
        i = i + 1;
        assert(v@ == s@.subrange(0, i as int));
    }
    assert(v@ == s@);
    v
}

/// A string made of the characters of `v`.
pub fn string_of(v: &Vec<char>) -> (s: String)
    ensures
        s@ == v@,
{
    let mut s = String::new();
    let mut i: usize = 0;
    while i < v.len()
        invariant
            i <= v.len(),
            s@ == v@.subrange(0, i as int),
        decreases v.len() - i,
    {
        push_char(&mut s, v[i]);
        i = i + 1;
        assert(s@ == v@.subrange(0, i as int));
    }
    assert(s@ == v@);
    s
}

/// A fresh string holding the characters of `s`.
pub fn owned(s: &str) -> (r: String)
    ensures
        r@ == s@,
{
    String::from_str(s)
}

/// `a` followed by `b`.
pub fn cat(a: &str, b: &str) -> (r: String)
    ensures
        r@ == a@ + b@,
{
    let mut r = String::from_str(a);
    r.append(b);
    r
}

/// `a`, `b` and `c` in a row.
pub fn cat3(a: &str, b: &str, c: &str) -> (r: String)
    ensures
        r@ == a@ + b@ + c@,
{
    let mut r = String::from_str(a);
    r.append(b);
    r.append(c);
    r
}

/// Whether two strings hold the same characters.
pub fn str_eq(a: &str, b: &str) -> (r: bool)
    ensures
        r == (a@ == b@),
{
    let x = String::from_str(a);
    let y = String::from_str(b);
    x == y
}

/// Whether two character sequences are equal, compared elementwise.
pub fn chars_eq(a: &Vec<char>, b: &Vec<char>) -> (r: bool)
    ensures
        r == (a@ == b@),
{
    if a.len() != b.len() {
        return false;
    }
    let mut i: usize = 0;
    while i < a.len()
        invariant
            a.len() == b.len(),
            i <= a.len(),
            forall|k: int| 0 <= k < i ==> a@[k] == b@[k],
        decreases a.len() - i,
    {
        if a[i] != b[i] {
            return false;
        }
        i = i + 1;
    }
    assert(a@ =~= b@);
    true
}

/// Whether a `::` ends at position `j` of `path`.
pub open spec fn sep_ends_at(path: Seq<char>, j: int) -> bool {
    2 <= j <= path.len() && path[j - 2] == ':' && path[j - 1] == ':'
}

/// The position just after the last `::` in `path`, or 0 when it has none.
pub open spec fn last_segment_start(path: Seq<char>) -> int
    decreases path.len(),
{
    if path.len() < 2 {
        0
    } else if path[path.len() - 2] == ':' && path[path.len() - 1] == ':' {
        path.len() as int
    } else {
        last_segment_start(path.drop_last())
    }
}

/// The last `::`-separated segment of `path`.
pub open spec fn spec_simple_name(path: Seq<char>) -> Seq<char> {
    path.subrange(last_segment_start(path), path.len() as int)
}

pub proof fn lemma_last_segment_start_bounds(path: Seq<char>)
    ensures
        0 <= last_segment_start(path) <= path.len(),
    decreases path.len(),
{
    if path.len() >= 2 && !(path[path.len() - 2] == ':' && path[path.len() - 1] == ':') {
        lemma_last_segment_start_bounds(path.drop_last());
    }
}

proof fn lemma_last_segment_start_prefix(path: Seq<char>, k: int)
    requires
        0 <= k <= path.len(),
        forall|j: int| k < j <= path.len() ==> !#[trigger] sep_ends_at(path, j),
    ensures
        last_segment_start(path) == last_segment_start(path.subrange(0, k)),
    decreases path.len() - k,
{
    if k < path.len() {
        lemma_last_segment_start_prefix(path, k + 1);
        let p = path.subrange(0, k + 1);
        assert(p.drop_last() =~= path.subrange(0, k));
        assert(!sep_ends_at(path, k + 1));
    } else {
        assert(path.subrange(0, k) =~= path);
    }
}

/// The index in `v` at which the last `::`-separated segment starts.
pub fn last_segment_index(v: &Vec<char>) -> (r: usize)
    ensures
        r == last_segment_start(v@),
        r <= v.len(),
{
    let mut k: usize = v.len();
    while k >= 2
        invariant
            k <= v.len(),
            forall|j: int| k < j <= v.len() ==> !#[trigger] sep_ends_at(v@, j),
        decreases k,
    {
        if v[k - 2] == ':' && v[k - 1] == ':' {
            assert(sep_ends_at(v@, k as int));
            proof {
                lemma_last_segment_start_prefix(v@, k as int);
                let p = v@.subrange(0, k as int);
                assert(p[p.len() - 2] == ':' && p[p.len() - 1] == ':');
            }
            return k;
        }
        assert(!sep_ends_at(v@, k as int));
        k = k - 1;
    }
    proof {
        lemma_last_segment_start_prefix(v@, k as int);
    }
    0
}

/// The last `::`-separated segment of `path` (the whole path when it has no `::`).
pub fn simple_name(path: &str) -> (r: &str)
    ensures
        r@ == spec_simple_name(path@),
{
    let v = chars_of(path);
    let start = last_segment_index(&v);
    proof {
        lemma_last_segment_start_bounds(path@);
    }
    path.substring_char(start, v.len())
}

/// The decimal digit character for `d`.
pub open spec fn digit_char(d: nat) -> char {
    if d == 0 {
        '0'
    } else if d == 1 {
        '1'
    } else if d == 2 {
        '2'
    } else if d == 3 {
        '3'
    } else if d == 4 {
        '4'
    } else if d == 5 {
        '5'
    } else if d == 6 {
        '6'
    } else if d == 7 {
        '7'
    } else if d == 8 {
        '8'
    } else {
        '9'
    }
}

/// The decimal representation of `n`, without leading zeros.
pub open spec fn nat_text(n: nat) -> Seq<char>
    decreases n,
{
    if n < 10 {
        seq![digit_char(n)]
    } else {
        nat_text(n / 10).push(digit_char(n % 10))
    }
}

/// The decimal representation of `i`, with a leading `-` when negative.
pub open spec fn int_text(i: int) -> Seq<char> {
    if i < 0 {
        seq!['-'] + nat_text((-i) as nat)
    } else {
        nat_text(i as nat)
    }
}

fn digit(d: u128) -> (c: char)
    requires
        d < 10,
    ensures
        c == digit_char(d as nat),
{
    if d == 0 {
        '0'
    } else if d == 1 {
        '1'
    } else if d == 2 {
        '2'
    } else if d == 3 {
        '3'
    } else if d == 4 {
        '4'
    } else if d == 5 {
        '5'
    } else if d == 6 {
        '6'
    } else if d == 7 {
        '7'
    } else if d == 8 {
        '8'
    } else {
        '9'
    }
}

fn nat_chars(n: u128) -> (v: Vec<char>)
    ensures
        v@ == nat_text(n as nat),
    decreases n,
{
    if n < 10 {
        let mut v = Vec::new();
        v.push(digit(n));
        v
    } else {
        let mut v = nat_chars(n / 10);
        v.push(digit(n % 10));
        v
    }
}

/// The decimal text of an unsigned integer.
pub fn u128_text(n: u128) -> (s: String)
    ensures
        s@ == nat_text(n as nat),
{
    string_of(&nat_chars(n))
}

/// The decimal text of a signed integer.
pub fn i128_text(i: i128) -> (s: String)
    ensures
        s@ == int_text(i as int),
{
    if i < 0 {
        let magnitude: u128 = ((-(i + 1)) as u128) + 1;
        let mut v: Vec<char> = Vec::new();
        v.push('-');
        let mut digits = nat_chars(magnitude);
        v.append(&mut digits);
        assert(v@ =~= seq!['-'] + nat_text((-(i as int)) as nat));
        string_of(&v)
    } else {
        string_of(&nat_chars(i as u128))
    }
}

/// The elements of `parts` separated by `sep`.
pub open spec fn join_seq(parts: Seq<Seq<char>>, sep: Seq<char>) -> Seq<char>
    decreases parts.len(),
{
    if parts.len() == 0 {
        Seq::empty()
    } else if parts.len() == 1 {
        parts[0]
    } else {
        join_seq(parts.drop_last(), sep) + sep + parts.last()
    }
}

/// The views of a vector of strings.
pub open spec fn views(v: Seq<String>) -> Seq<Seq<char>> {
    v.map_values(|s: String| s@)
}

/// The strings of `parts` joined by `sep`.
pub fn join(parts: &Vec<String>, sep: &str) -> (r: String)
    ensures
        r@ == join_seq(views(parts@), sep@),
{
    let mut r = String::new();
    let mut i: usize = 0;
    while i < parts.len()
        invariant
            i <= parts.len(),
            r@ == join_seq(views(parts@).subrange(0, i as int), sep@),
        decreases parts.len() - i,
    {
        let ghost prev = views(parts@).subrange(0, i as int);
        if i > 0 {
            r.append(sep);
        }
        r.append(parts[i].as_str());
        i = i + 1;
        proof {
            let cur = views(parts@).subrange(0, i as int);
            assert(cur.drop_last() =~= prev);
            assert(cur.last() == parts@[i - 1]@);
            if i == 1 {
                assert(r@ =~= cur[0]);
            }
        }
    }
    assert(views(parts@).subrange(0, parts.len() as int) =~= views(parts@));
    r
}

/// The ASCII lower-case form of a character; other characters are unchanged.
pub open spec fn lower_char(c: char) -> char {
    if 'A' <= c && c <= 'Z' {
        ((c as u32) + 32) as char
    } else {
        c
    }
}

/// The ASCII lower-case form of a character sequence.
pub open spec fn lower_seq(s: Seq<char>) -> Seq<char> {
    s.map_values(|c: char| lower_char(c))
}

fn lower(c: char) -> (r: char)
    ensures
        r == lower_char(c),
{
    if 'A' <= c && c <= 'Z' {
        let code: u32 = (c as u32) + 32;
        assert(code <= 0x7f);
        code as u8 as char
    } else {
        c
    }
}

/// The ASCII lower-case form of `s`.
pub fn to_ascii_lower(s: &str) -> (r: String)
    ensures
        r@ == lower_seq(s@),
{
    let v = chars_of(s);
    let mut out: Vec<char> = Vec::new();
    let mut i: usize = 0;
    while i < v.len()
        invariant
            i <= v.len(),
            v@ == s@,
            out@ == lower_seq(v@.subrange(0, i as int)),
        decreases v.len() - i,
    {
        out.push(lower(v[i]));
        i = i + 1;
        assert(out@ =~= lower_seq(v@.subrange(0, i as int)));
    }
    assert(v@.subrange(0, v.len() as int) =~= v@);
    string_of(&out)
}

/// Whether two strings are equal when ASCII letters are compared without case.
pub open spec fn eq_ignore_ascii_case(a: Seq<char>, b: Seq<char>) -> bool {
    lower_seq(a) == lower_seq(b)
}

/// Whether `a` and `b` are equal, ignoring ASCII case.
pub fn str_eq_ignore_ascii_case(a: &str, b: &str) -> (r: bool)
    ensures
        r == eq_ignore_ascii_case(a@, b@),
{
    let x = to_ascii_lower(a);
    let y = to_ascii_lower(b);
    x == y
}

/// Whether `needle` occurs in `hay` starting at position `at`.
pub open spec fn occurs_at(hay: Seq<char>, needle: Seq<char>, at: int) -> bool {
    0 <= at && at + needle.len() <= hay.len() && hay.subrange(at, at + needle.len()) == needle
}

/// Whether `needle` occurs anywhere in `hay`.
pub open spec fn contains_seq(hay: Seq<char>, needle: Seq<char>) -> bool {
    exists|at: int| occurs_at(hay, needle, at)
}

/// Whether `needle` occurs at position `at` of `hay`.
pub fn matches_at(hay: &Vec<char>, needle: &Vec<char>, at: usize) -> (r: bool)
    ensures
        r == occurs_at(hay@, needle@, at as int),
{
    if at > hay.len() || needle.len() > hay.len() - at {
        return false;
    }
    let mut k: usize = 0;
    while k < needle.len()
        invariant
            at + needle.len() <= hay.len(),
            k <= needle.len(),
            forall|j: int| 0 <= j < k ==> hay@[at + j] == needle@[j],
        decreases needle.len() - k,
    {
        if hay[at + k] != needle[k] {
            assert(hay@.subrange(at as int, at + needle.len())[k as int] != needle@[k as int]);
            return false;
        }
        k = k + 1;
    }
    assert(hay@.subrange(at as int, at + needle.len()) =~= needle@);
    true
}

/// Whether `needle` occurs in `hay`.
pub fn contains_str(hay: &str, needle: &str) -> (r: bool)
    ensures
        r == contains_seq(hay@, needle@),
{
    let h = chars_of(hay);
    let n = chars_of(needle);
    let mut at: usize = 0;
    while at < h.len()
        invariant
            h@ == hay@,
            n@ == needle@,
            at <= h.len(),
            forall|j: int| 0 <= j < at ==> !occurs_at(hay@, needle@, j),
        decreases h.len() - at,
    {
        if matches_at(&h, &n, at) {
            return true;
        }
        at = at + 1;
    }
    let last = matches_at(&h, &n, at);
    assert(last ==> occurs_at(hay@, needle@, at as int));
    assert(!last ==> forall|j: int| !occurs_at(hay@, needle@, j));
    last
}

/// `s` with every `.` replaced by `::`.
pub open spec fn dots_to_colons(s: Seq<char>) -> Seq<char>
    decreases s.len(),
{
    if s.len() == 0 {
        Seq::empty()
    } else if s.last() == '.' {
        dots_to_colons(s.drop_last()) + "::"@
    } else {
        dots_to_colons(s.drop_last()).push(s.last())
    }
}

/// `s` with every `.` replaced by `::`.
pub fn replace_dots(s: &str) -> (r: String)
    ensures
        r@ == dots_to_colons(s@),
{
    let v = chars_of(s);
    let mut out: Vec<char> = Vec::new();
    let mut i: usize = 0;
    while i < v.len()
        invariant
            i <= v.len(),
            v@ == s@,
            out@ == dots_to_colons(v@.subrange(0, i as int)),
        decreases v.len() - i,
    {
        let ghost prev = v@.subrange(0, i as int);
        if v[i] == '.' {
            out.push(':');
            out.push(':');
        } else {
            out.push(v[i]);
        }
        i = i + 1;
        proof {
            let cur = v@.subrange(0, i as int);
            assert(cur.drop_last() =~= prev);
            reveal_strlit("::");
            assert(out@ =~= dots_to_colons(cur));
        }
    }
    assert(v@.subrange(0, v.len() as int) =~= v@);
    string_of(&out)
}

/// `prefix::name`.
pub open spec fn qualify_with(prefix: Seq<char>, name: Seq<char>) -> Seq<char> {
    prefix + "::"@ + name
}

/// `prefix::name`.
pub fn qualified(prefix: &str, name: &str) -> (r: String)
    ensures
        r@ == qualify_with(prefix@, name@),
{
    cat3(prefix, "::", name)
}

/// The namespace `ns` followed by each enclosing namespace, innermost first
/// (`A::B::C`, `A::B`, `A`).
pub open spec fn ns_chain(ns: Seq<char>) -> Seq<Seq<char>>
    decreases ns.len(),
{
    let k = last_segment_start(ns);
    if k == 0 {
        seq![ns]
    } else {
        proof {
            lemma_last_segment_start_bounds(ns);
            lemma_last_segment_start_sep(ns);
        }
        seq![ns] + ns_chain(ns.subrange(0, k - 2))
    }
}

pub proof fn lemma_last_segment_start_sep(path: Seq<char>)
    ensures
        last_segment_start(path) == 0 || sep_ends_at(path, last_segment_start(path)),
    decreases path.len(),
{
    if path.len() >= 2 && !(path[path.len() - 2] == ':' && path[path.len() - 1] == ':') {
        lemma_last_segment_start_sep(path.drop_last());
        let k = last_segment_start(path.drop_last());
        if k != 0 {
            assert(path.drop_last()[k - 2] == path[k - 2]);
            assert(path.drop_last()[k - 1] == path[k - 1]);
        }
    }
}

/// The chain of namespaces starting at `ns` (see `ns_chain`).
pub fn namespace_chain(ns: &str) -> (r: Vec<String>)
    ensures
        views(r@) == ns_chain(ns@),
{
    let mut out: Vec<String> = Vec::new();
    let mut cur: Vec<char> = chars_of(ns);
    let ghost acc: Seq<Seq<char>> = Seq::empty();
    loop
        invariant
            views(out@) + ns_chain(cur@) == ns_chain(ns@),
        decreases cur@.len(),
    {
        let k = last_segment_index(&cur);
        let item = string_of(&cur);
        let ghost prev = out@;
        out.push(item);
        assert(views(out@) =~= views(prev).push(cur@));
        if k == 0 {
            assert(ns_chain(cur@) == seq![cur@]);
            assert(views(out@) =~= views(prev) + seq![cur@]);
            return out;
        }
        proof {
            lemma_last_segment_start_bounds(cur@);
            lemma_last_segment_start_sep(cur@);
        }
        let mut next: Vec<char> = Vec::new();
        let mut j: usize = 0;
        while j < k - 2
            invariant
                k <= cur.len(),
                2 <= k,
                j <= k - 2,
                next@ == cur@.subrange(0, j as int),
            decreases k - 2 - j,
        {
            next.push(cur[j]);
            j = j + 1;
            assert(next@ =~= cur@.subrange(0, j as int));
        }
        proof {
            assert(ns_chain(cur@) == seq![cur@] + ns_chain(next@));
            assert(views(out@) + ns_chain(next@) =~= views(prev) + ns_chain(cur@));
        }
        cur = next;
    }
}

/// Whether `i` is the first position of `key` in `keys`.
pub open spec fn is_first(keys: Seq<Seq<char>>, key: Seq<char>, i: int) -> bool {
    0 <= i < keys.len() && keys[i] == key && forall|k: int| 0 <= k < i ==> keys[k] != key
}

/// The first position of `key` in `keys`, if any.
pub open spec fn first_match(keys: Seq<Seq<char>>, key: Seq<char>) -> Option<int> {
    if exists|i: int| is_first(keys, key, i) {
        Some(choose|i: int| is_first(keys, key, i))
    } else {
        None
    }
}

/// The first position is unique.
pub proof fn lemma_first_match(keys: Seq<Seq<char>>, key: Seq<char>, i: int)
    requires
        is_first(keys, key, i),
    ensures
        first_match(keys, key) == Some(i),
{
    let j = choose|j: int| is_first(keys, key, j);
    assert(is_first(keys, key, j));
    if j < i {
        assert(keys[j] != key);
    }
    if i < j {
        assert(keys[i] != key);
    }
}

/// When `key` is nowhere in `keys`, it has no first position.
pub proof fn lemma_no_match(keys: Seq<Seq<char>>, key: Seq<char>)
    requires
        forall|k: int| 0 <= k < keys.len() ==> keys[k] != key,
    ensures
        first_match(keys, key) is None,
{
}

/// `key` occurs in `keys` exactly when it has a first position.
pub proof fn lemma_first_match_exists(keys: Seq<Seq<char>>, key: Seq<char>, i: int)
    requires
        0 <= i < keys.len(),
        keys[i] == key,
    ensures
        first_match(keys, key) is Some,
    decreases i,
{
    if exists|k: int| 0 <= k < i && keys[k] == key {
        let k = choose|k: int| 0 <= k < i && keys[k] == key;
        lemma_first_match_exists(keys, key, k);
    } else {
        assert(is_first(keys, key, i));
    }
}

/// The first position in `cands` of a string that `known` holds, if any.
pub open spec fn first_known(known: Seq<Seq<char>>, cands: Seq<Seq<char>>) -> Option<int> {
    if exists|i: int| is_first_known(known, cands, i) {
        Some(choose|i: int| is_first_known(known, cands, i))
    } else {
        None
    }
}

/// Whether `i` is the first position in `cands` of a string that `known` holds.
pub open spec fn is_first_known(known: Seq<Seq<char>>, cands: Seq<Seq<char>>, i: int) -> bool {
    0 <= i < cands.len() && known.contains(cands[i]) && forall|k: int|
        0 <= k < i ==> !known.contains(#[trigger] cands[k])
}

/// The first position of a known candidate is unique.
pub proof fn lemma_first_known(known: Seq<Seq<char>>, cands: Seq<Seq<char>>, i: int)
    requires
        is_first_known(known, cands, i),
    ensures
        first_known(known, cands) == Some(i),
{
    let j = choose|j: int| is_first_known(known, cands, j);
    assert(is_first_known(known, cands, j));
    if j < i {
        assert(!known.contains(cands[j]));
    }
    if i < j {
        assert(!known.contains(cands[i]));
    }
}

} // verus!
