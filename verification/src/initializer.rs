use vstd::prelude::*;

use crate::text::{cat3, chars_of, join, join_seq, matches_at, occurs_at, owned, string_of, views};

verus! {

/// ASCII whitespace as `u8::is_ascii_whitespace` has it: space, tab, line feed, form feed
/// and carriage return.
pub open spec fn ascii_ws(c: char) -> bool {
    c == ' ' || c == '\t' || c == '\n' || c == '\x0C' || c == '\r'
}

/// Unicode whitespace (the `White_Space` property), which `str::trim` removes.
pub open spec fn unicode_ws(c: char) -> bool {
    let u = c as u32;
    (0x09 <= u && u <= 0x0D) || u == 0x20 || u == 0x85 || u == 0xA0 || u == 0x1680 || (0x2000 <= u
        && u <= 0x200A) || u == 0x2028 || u == 0x2029 || u == 0x202F || u == 0x205F || u == 0x3000
}

/// `s` without leading Unicode whitespace.
pub open spec fn trim_start_ws(s: Seq<char>) -> Seq<char>
    decreases s.len(),
{
    if s.len() > 0 && unicode_ws(s[0]) {
        trim_start_ws(s.drop_first())
    } else {
        s
    }
}

/// `s` without trailing Unicode whitespace.
pub open spec fn trim_end_ws(s: Seq<char>) -> Seq<char>
    decreases s.len(),
{
    if s.len() > 0 && unicode_ws(s.last()) {
        trim_end_ws(s.drop_last())
    } else {
        s
    }
}

/// `s` without leading and trailing Unicode whitespace.
pub open spec fn trim_ws(s: Seq<char>) -> Seq<char> {
    trim_end_ws(trim_start_ws(s))
}

/// The first position at or after `i` that does not hold ASCII whitespace.
pub open spec fn ws_end(t: Seq<char>, i: int) -> int
    decreases t.len() - i,
{
    if 0 <= i < t.len() && ascii_ws(t[i]) {
        ws_end(t, i + 1)
    } else {
        i
    }
}

/// Whether `c` is an ASCII letter or digit.
pub open spec fn ascii_alnum(c: char) -> bool {
    ('a' <= c && c <= 'z') || ('A' <= c && c <= 'Z') || ('0' <= c && c <= '9')
}

/// Where the type name starts: after a leading `new` keyword and the whitespace behind it,
/// when `new` stands on its own at `i`.
pub open spec fn after_new(t: Seq<char>, i: int) -> int {
    if occurs_at(t, "new"@, i) {
        let next = i + 3;
        if next >= t.len() || !(ascii_alnum(t[next]) || t[next] == '_' || t[next] == ':') {
            ws_end(t, next)
        } else {
            i
        }
    } else {
        i
    }
}

/// Where the type name that starts at `i` ends, `depth` angle brackets deep: at a `{`, `(`
/// or whitespace outside angle brackets, or at an unmatched `>`.
pub open spec fn type_end(t: Seq<char>, i: int, depth: nat) -> int
    decreases t.len() - i,
{
    if i < 0 || i >= t.len() {
        i
    } else if t[i] == '<' {
        type_end(t, i + 1, depth + 1)
    } else if t[i] == '>' {
        if depth == 0 {
            i
        } else {
            type_end(t, i + 1, (depth - 1) as nat)
        }
    } else if depth == 0 && (t[i] == '{' || t[i] == '(' || ascii_ws(t[i])) {
        i
    } else {
        type_end(t, i + 1, depth)
    }
}

/// Skips constructor arguments from `i`, `depth` parentheses deep: the position after the
/// matching `)` and the depth left (zero when it was found).
pub open spec fn paren_end(t: Seq<char>, i: int, depth: nat) -> (int, nat)
    decreases t.len() - i,
{
    if i < 0 || i >= t.len() || depth == 0 {
        (i, depth)
    } else if t[i] == '(' {
        paren_end(t, i + 1, depth + 1)
    } else if t[i] == ')' {
        paren_end(t, i + 1, (depth - 1) as nat)
    } else {
        paren_end(t, i + 1, depth)
    }
}

/// Where the member name that starts at `i` ends: at the next `=`, skipping whitespace right
/// before it.
pub open spec fn name_end(t: Seq<char>, i: int) -> int
    decreases t.len() - i,
{
    if i < 0 || i >= t.len() {
        i
    } else if t[i] == '=' {
        i
    } else if ascii_ws(t[i]) && ws_end(t, i) < t.len() && t[ws_end(t, i)] == '=' {
        ws_end(t, i)
    } else {
        name_end(t, i + 1)
    }
}

/// Where the member value that starts at `i` ends: at a `,` or `}` outside braces, parentheses
/// and brackets (or at the end of the text); `None` at an unmatched `}`, `)` or `]`.
pub open spec fn value_end(t: Seq<char>, i: int, brace: nat, paren: nat, bracket: nat) -> Option<int>
    decreases t.len() - i,
{
    if i < 0 || i >= t.len() {
        Some(i)
    } else if t[i] == '{' {
        value_end(t, i + 1, brace + 1, paren, bracket)
    } else if t[i] == '}' {
        if brace == 0 && paren == 0 && bracket == 0 {
            Some(i)
        } else if brace > 0 {
            value_end(t, i + 1, (brace - 1) as nat, paren, bracket)
        } else {
            None
        }
    } else if t[i] == '(' {
        value_end(t, i + 1, brace, paren + 1, bracket)
    } else if t[i] == ')' {
        if paren == 0 {
            None
        } else {
            value_end(t, i + 1, brace, (paren - 1) as nat, bracket)
        }
    } else if t[i] == '[' {
        value_end(t, i + 1, brace, paren, bracket + 1)
    } else if t[i] == ']' {
        if bracket == 0 {
            None
        } else {
            value_end(t, i + 1, brace, paren, (bracket - 1) as nat)
        }
    } else if t[i] == ',' && brace == 0 && paren == 0 && bracket == 0 {
        Some(i)
    } else {
        value_end(t, i + 1, brace, paren, bracket)
    }
}

pub proof fn lemma_ws_end(t: Seq<char>, i: int)
    requires
        0 <= i <= t.len(),
    ensures
        i <= ws_end(t, i) <= t.len(),
    decreases t.len() - i,
{
    if i < t.len() && ascii_ws(t[i]) {
        lemma_ws_end(t, i + 1);
    }
}

pub proof fn lemma_type_end(t: Seq<char>, i: int, depth: nat)
    requires
        0 <= i <= t.len(),
    ensures
        i <= type_end(t, i, depth) <= t.len(),
    decreases t.len() - i,
{
    if i < t.len() {
        if t[i] == '<' {
            lemma_type_end(t, i + 1, depth + 1);
        } else if t[i] == '>' {
            if depth > 0 {
                lemma_type_end(t, i + 1, (depth - 1) as nat);
            }
        } else if !(depth == 0 && (t[i] == '{' || t[i] == '(' || ascii_ws(t[i]))) {
            lemma_type_end(t, i + 1, depth);
        }
    }
}

pub proof fn lemma_paren_end(t: Seq<char>, i: int, depth: nat)
    requires
        0 <= i <= t.len(),
    ensures
        i <= paren_end(t, i, depth).0 <= t.len(),
    decreases t.len() - i,
{
    if i < t.len() && depth > 0 {
        if t[i] == '(' {
            lemma_paren_end(t, i + 1, depth + 1);
        } else if t[i] == ')' {
            lemma_paren_end(t, i + 1, (depth - 1) as nat);
        } else {
            lemma_paren_end(t, i + 1, depth);
        }
    }
}

pub proof fn lemma_name_end(t: Seq<char>, i: int)
    requires
        0 <= i <= t.len(),
    ensures
        i <= name_end(t, i) <= t.len(),
    decreases t.len() - i,
{
    if i < t.len() && t[i] != '=' {
        lemma_ws_end(t, i);
        if !(ascii_ws(t[i]) && ws_end(t, i) < t.len() && t[ws_end(t, i)] == '=') {
            lemma_name_end(t, i + 1);
        }
    }
}

pub proof fn lemma_value_end(t: Seq<char>, i: int, brace: nat, paren: nat, bracket: nat)
    requires
        0 <= i <= t.len(),
    ensures
        value_end(t, i, brace, paren, bracket) matches Some(v) ==> i <= v <= t.len(),
    decreases t.len() - i,
{
    if i < t.len() {
        if t[i] == '{' {
            lemma_value_end(t, i + 1, brace + 1, paren, bracket);
        } else if t[i] == '}' {
            if !(brace == 0 && paren == 0 && bracket == 0) && brace > 0 {
                lemma_value_end(t, i + 1, (brace - 1) as nat, paren, bracket);
            }
        } else if t[i] == '(' {
            lemma_value_end(t, i + 1, brace, paren + 1, bracket);
        } else if t[i] == ')' {
            if paren > 0 {
                lemma_value_end(t, i + 1, brace, (paren - 1) as nat, bracket);
            }
        } else if t[i] == '[' {
            lemma_value_end(t, i + 1, brace, paren, bracket + 1);
        } else if t[i] == ']' {
            if bracket > 0 {
                lemma_value_end(t, i + 1, brace, paren, (bracket - 1) as nat);
            }
        } else if !(t[i] == ',' && brace == 0 && paren == 0 && bracket == 0) {
            lemma_value_end(t, i + 1, brace, paren, bracket);
        }
    }
}

/// The member names of the initializer body from `i` (just inside the `{`, after
/// whitespace) and the position after its closing `}`; `None` where the body is malformed.
pub open spec fn members_from(t: Seq<char>, i: int) -> Option<(Seq<Seq<char>>, int)>
    decreases t.len() - i,
{
    if i < 0 || i >= t.len() {
        Some((Seq::empty(), i))
    } else if t[i] == '}' {
        Some((Seq::empty(), i + 1))
    } else {
        let n = name_end(t, i);
        if n >= t.len() || t[n] != '=' {
            None
        } else {
            let name = trim_ws(t.subrange(i, n));
            if name.len() == 0 {
                None
            } else {
                match value_end(t, n + 1, 0, 0, 0) {
                    None => None,
                    Some(v) => if v >= t.len() {
                        None
                    } else if t[v] == ',' {
                        proof {
                            lemma_name_end(t, i);
                            lemma_value_end(t, n + 1, 0, 0, 0);
                        }
                        match members_from(t, v + 1) {
                            None => None,
                            Some((rest, e)) => Some((seq![name] + rest, e)),
                        }
                    } else if t[v] == '}' {
                        Some((seq![name], v + 1))
                    } else {
                        None
                    },
                }
            }
        }
    }
}

pub proof fn lemma_members_from(t: Seq<char>, i: int)
    requires
        0 <= i <= t.len(),
    ensures
        members_from(t, i) matches Some((ms, e)) ==> i <= e <= t.len(),
    decreases t.len() - i,
{
    if i < t.len() && t[i] != '}' {
        let n = name_end(t, i);
        lemma_name_end(t, i);
        if n < t.len() && t[n] == '=' {
            lemma_value_end(t, n + 1, 0, 0, 0);
            match value_end(t, n + 1, 0, 0, 0) {
                Some(v) => if v < t.len() && t[v] == ',' {
                    lemma_members_from(t, v + 1);
                },
                None => {},
            }
        }
    }
}

/// `u` is `t` behind a prefix of length `d`.
pub open spec fn shifted(u: Seq<char>, t: Seq<char>, d: int) -> bool {
    &&& d >= 0
    &&& u.len() == t.len() + d
    &&& forall|k: int| 0 <= k < t.len() ==> #[trigger] u[k + d] == t[k]
}

proof fn lemma_shift_ws_end(u: Seq<char>, t: Seq<char>, d: int, i: int)
    requires
        shifted(u, t, d),
        0 <= i,
    ensures
        ws_end(u, i + d) == ws_end(t, i) + d,
    decreases t.len() - i,
{
    if i < t.len() {
        assert(u[i + d] == t[i]);
        if ascii_ws(t[i]) {
            lemma_shift_ws_end(u, t, d, i + 1);
        }
    }
}

proof fn lemma_shift_type_end(u: Seq<char>, t: Seq<char>, d: int, i: int, depth: nat)
    requires
        shifted(u, t, d),
        0 <= i,
    ensures
        type_end(u, i + d, depth) == type_end(t, i, depth) + d,
    decreases t.len() - i,
{
    if i < t.len() {
        assert(u[i + d] == t[i]);
        if t[i] == '<' {
            lemma_shift_type_end(u, t, d, i + 1, depth + 1);
        } else if t[i] == '>' {
            if depth > 0 {
                lemma_shift_type_end(u, t, d, i + 1, (depth - 1) as nat);
            }
        } else if !(depth == 0 && (t[i] == '{' || t[i] == '(' || ascii_ws(t[i]))) {
            lemma_shift_type_end(u, t, d, i + 1, depth);
        }
    }
}

proof fn lemma_shift_paren_end(u: Seq<char>, t: Seq<char>, d: int, i: int, depth: nat)
    requires
        shifted(u, t, d),
        0 <= i,
    ensures
        paren_end(u, i + d, depth) == (paren_end(t, i, depth).0 + d, paren_end(t, i, depth).1),
    decreases t.len() - i,
{
    if i < t.len() && depth > 0 {
        assert(u[i + d] == t[i]);
        if t[i] == '(' {
            lemma_shift_paren_end(u, t, d, i + 1, depth + 1);
        } else if t[i] == ')' {
            lemma_shift_paren_end(u, t, d, i + 1, (depth - 1) as nat);
        } else {
            lemma_shift_paren_end(u, t, d, i + 1, depth);
        }
    }
}

proof fn lemma_shift_name_end(u: Seq<char>, t: Seq<char>, d: int, i: int)
    requires
        shifted(u, t, d),
        0 <= i,
    ensures
        name_end(u, i + d) == name_end(t, i) + d,
    decreases t.len() - i,
{
    if i < t.len() {
        assert(u[i + d] == t[i]);
        if t[i] != '=' {
            lemma_shift_ws_end(u, t, d, i);
            lemma_ws_end(t, i);
            if ws_end(t, i) < t.len() {
                assert(u[ws_end(t, i) + d] == t[ws_end(t, i)]);
            }
            lemma_shift_name_end(u, t, d, i + 1);
        }
    }
}

proof fn lemma_shift_value_end(u: Seq<char>, t: Seq<char>, d: int, i: int, brace: nat, paren: nat, bracket: nat)
    requires
        shifted(u, t, d),
        0 <= i,
    ensures
        value_end(u, i + d, brace, paren, bracket) == match value_end(t, i, brace, paren, bracket) {
            Some(v) => Some(v + d),
            None => None,
        },
    decreases t.len() - i,
{
    if i < t.len() {
        assert(u[i + d] == t[i]);
        if t[i] == '{' {
            lemma_shift_value_end(u, t, d, i + 1, brace + 1, paren, bracket);
        } else if t[i] == '}' {
            if !(brace == 0 && paren == 0 && bracket == 0) && brace > 0 {
                lemma_shift_value_end(u, t, d, i + 1, (brace - 1) as nat, paren, bracket);
            }
        } else if t[i] == '(' {
            lemma_shift_value_end(u, t, d, i + 1, brace, paren + 1, bracket);
        } else if t[i] == ')' {
            if paren > 0 {
                lemma_shift_value_end(u, t, d, i + 1, brace, (paren - 1) as nat, bracket);
            }
        } else if t[i] == '[' {
            lemma_shift_value_end(u, t, d, i + 1, brace, paren, bracket + 1);
        } else if t[i] == ']' {
            if bracket > 0 {
                lemma_shift_value_end(u, t, d, i + 1, brace, paren, (bracket - 1) as nat);
            }
        } else if !(t[i] == ',' && brace == 0 && paren == 0 && bracket == 0) {
            lemma_shift_value_end(u, t, d, i + 1, brace, paren, bracket);
        }
    }
}

proof fn lemma_shift_subrange(u: Seq<char>, t: Seq<char>, d: int, a: int, b: int)
    requires
        shifted(u, t, d),
        0 <= a <= b <= t.len(),
    ensures
        u.subrange(a + d, b + d) == t.subrange(a, b),
{
    assert forall|k: int| 0 <= k < b - a implies #[trigger] u.subrange(a + d, b + d)[k] == t.subrange(a, b)[k] by {
        assert(u[a + k + d] == t[a + k]);
    }
    assert(u.subrange(a + d, b + d) =~= t.subrange(a, b));
}

proof fn lemma_shift_members_from(u: Seq<char>, t: Seq<char>, d: int, i: int)
    requires
        shifted(u, t, d),
        0 <= i,
    ensures
        members_from(u, i + d) == match members_from(t, i) {
            Some((ms, e)) => Some((ms, e + d)),
            None => None,
        },
    decreases t.len() - i,
{
    if i < t.len() {
        assert(u[i + d] == t[i]);
        if t[i] != '}' {
            let n = name_end(t, i);
            lemma_shift_name_end(u, t, d, i);
            lemma_name_end(t, i);
            if n < t.len() {
                assert(u[n + d] == t[n]);
                if t[n] == '=' {
                    lemma_shift_subrange(u, t, d, i, n);
                    lemma_shift_value_end(u, t, d, n + 1, 0, 0, 0);
                    lemma_value_end(t, n + 1, 0, 0, 0);
                    if let Some(v) = value_end(t, n + 1, 0, 0, 0) {
                        if v < t.len() {
                            assert(u[v + d] == t[v]);
                            if t[v] == ',' {
                                lemma_shift_members_from(u, t, d, v + 1);
                            }
                        }
                    }
                }
            }
        }
    }
}

/// A leading `new` keyword, followed by a space, is skipped: an initializer text parses the
/// same with and without it, where the text does not already start with `new`.
pub proof fn law_leading_new(t: Seq<char>)
    requires
        !occurs_at(t, "new"@, ws_end(t, 0)),
    ensures
        parse_initializer("new "@ + t) == parse_initializer(t),
{
    reveal_strlit("new ");
    reveal_strlit("new");
    let u = "new "@ + t;
    assert(shifted(u, t, 4)) by {
        assert forall|k: int| 0 <= k < t.len() implies #[trigger] u[k + 4] == t[k] by {}
    }
    assert(u[0] == 'n' && u[1] == 'e' && u[2] == 'w' && u[3] == ' ');
    assert(ws_end(u, 0) == 0);
    assert(u.subrange(0, 3) =~= "new"@);
    assert(occurs_at(u, "new"@, 0));
    lemma_shift_ws_end(u, t, 4, 0);
    assert(ws_end(u, 3) == ws_end(u, 4));
    assert(after_new(u, 0) == ws_end(t, 0) + 4);
    let i0 = ws_end(t, 0);
    lemma_ws_end(t, 0);
    if i0 < t.len() {
        assert(after_new(t, i0) == i0);
        lemma_shift_type_end(u, t, 4, i0, 0);
        let te = type_end(t, i0, 0);
        lemma_type_end(t, i0, 0);
        lemma_shift_subrange(u, t, 4, i0, te);
        lemma_shift_ws_end(u, t, 4, te);
        let i2 = ws_end(t, te);
        lemma_ws_end(t, te);
        if i2 < t.len() {
            assert(u[i2 + 4] == t[i2]);
        }
        lemma_shift_paren_end(u, t, 4, i2 + 1, 1);
        let args = paren_end(t, i2 + 1, 1);
        if i2 + 1 <= t.len() {
            lemma_paren_end(t, i2 + 1, 1);
        }
        lemma_shift_ws_end(u, t, 4, args.0);
        let i3 = if i2 < t.len() && t[i2] == '(' {
            ws_end(t, args.0)
        } else {
            i2
        };
        if args.0 <= t.len() {
            lemma_ws_end(t, args.0);
        }
        assert(i3 >= 0);
        if i3 < t.len() {
            assert(u[i3 + 4] == t[i3]);
        }
        lemma_shift_ws_end(u, t, 4, i3 + 1);
        let i4 = ws_end(t, i3 + 1);
        if i3 + 1 <= t.len() {
            lemma_ws_end(t, i3 + 1);
        }
        if 0 <= i4 {
            lemma_shift_members_from(u, t, 4, i4);
            if let Some((ms, e)) = members_from(t, i4) {
                if 0 <= e {
                    lemma_shift_ws_end(u, t, 4, e);
                }
            }
        }
        assert(ws_end(u, 0) == 0);
        assert(after_new(u, 0) == i0 + 4);
        assert(type_end(u, i0 + 4, 0) == te + 4);
        assert(u.subrange(i0 + 4, te + 4) == t.subrange(i0, te));
        assert(ws_end(u, te + 4) == i2 + 4);
        assert(paren_end(u, i2 + 4 + 1, 1) == (args.0 + 4, args.1));
        assert((i2 + 4 < u.len() && u[i2 + 4] == '(') == (i2 < t.len() && t[i2] == '('));
        let i3u = if i2 + 4 < u.len() && u[i2 + 4] == '(' {
            ws_end(u, args.0 + 4)
        } else {
            i2 + 4
        };
        assert(i3u == i3 + 4);
        assert((i3u >= u.len() || u[i3u] != '{') == (i3 >= t.len() || t[i3] != '{'));
        assert(ws_end(u, i3u + 1) == i4 + 4);
        assert(members_from(u, i4 + 4) == match members_from(t, i4) {
            Some((ms, e)) => Some((ms, e + 4)),
            None => None,
        });
        assert(trim_ws(u.subrange(i0 + 4, te + 4)) == trim_ws(t.subrange(i0, te)));
        assert(parse_initializer(t) == {
            let type_path = trim_ws(t.subrange(i0, te));
            if te == i0 || type_path.len() == 0 {
                None
            } else if i2 < t.len() && t[i2] == '(' && args.1 != 0 {
                None
            } else if i3 >= t.len() || t[i3] != '{' {
                None
            } else if i4 >= t.len() {
                None
            } else {
                match members_from(t, i4) {
                    None => None,
                    Some((members, e)) => if ws_end(t, e) != t.len() {
                        None
                    } else {
                        Some((type_path, members))
                    },
                }
            }
        });
    } else {
        lemma_shift_type_end(u, t, 4, t.len() as int, 0);
    }
}

/// The type name and the assigned member names of an object initializer such as
/// `new Demo.Point<int> { X = 1, Y = f(2) }`; `None` where `t` is not one.
pub open spec fn parse_initializer(t: Seq<char>) -> Option<(Seq<char>, Seq<Seq<char>>)> {
    let i0 = ws_end(t, 0);
    if i0 >= t.len() {
        None
    } else {
        let i1 = after_new(t, i0);
        let te = type_end(t, i1, 0);
        let type_path = trim_ws(t.subrange(i1, te));
        if te == i1 || type_path.len() == 0 {
            None
        } else {
            let i2 = ws_end(t, te);
            let args = paren_end(t, i2 + 1, 1);
            let i3 = if i2 < t.len() && t[i2] == '(' {
                ws_end(t, args.0)
            } else {
                i2
            };
            if i2 < t.len() && t[i2] == '(' && args.1 != 0 {
                None
            } else if i3 >= t.len() || t[i3] != '{' {
                None
            } else {
                let i4 = ws_end(t, i3 + 1);
                if i4 >= t.len() {
                    None
                } else {
                    match members_from(t, i4) {
                        None => None,
                        Some((members, e)) => if ws_end(t, e) != t.len() {
                            None
                        } else {
                            Some((type_path, members))
                        },
                    }
                }
            }
        }
    }
}

/// An object initializer: its type name as written and the members it assigns.
#[derive(Debug)]
pub struct ParsedInitializer {
    pub type_path: String,
    pub members: Vec<String>,
}

fn is_ascii_ws(c: char) -> (r: bool)
    ensures
        r == ascii_ws(c),
{
    c == ' ' || c == '\t' || c == '\n' || c == '\x0C' || c == '\r'
}

fn is_unicode_ws(c: char) -> (r: bool)
    ensures
        r == unicode_ws(c),
{
    let u = c as u32;
    (0x09 <= u && u <= 0x0D) || u == 0x20 || u == 0x85 || u == 0xA0 || u == 0x1680 || (0x2000 <= u
        && u <= 0x200A) || u == 0x2028 || u == 0x2029 || u == 0x202F || u == 0x205F || u == 0x3000
}

fn is_ascii_alnum(c: char) -> (r: bool)
    ensures
        r == ascii_alnum(c),
{
    ('a' <= c && c <= 'z') || ('A' <= c && c <= 'Z') || ('0' <= c && c <= '9')
}

proof fn lemma_trim_start_skip(s: Seq<char>, k: int)
    requires
        0 <= k <= s.len(),
        forall|j: int| 0 <= j < k ==> unicode_ws(#[trigger] s[j]),
    ensures
        trim_start_ws(s) == trim_start_ws(s.subrange(k, s.len() as int)),
    decreases k,
{
    if k > 0 {
        lemma_trim_start_skip(s.drop_first(), k - 1);
        assert(s.drop_first().subrange(k - 1, s.drop_first().len() as int) =~= s.subrange(
            k,
            s.len() as int,
        ));
    } else {
        assert(s.subrange(0, s.len() as int) =~= s);
    }
}

proof fn lemma_trim_end_skip(s: Seq<char>, k: int)
    requires
        0 <= k <= s.len(),
        forall|j: int| k <= j < s.len() ==> unicode_ws(#[trigger] s[j]),
    ensures
        trim_end_ws(s) == trim_end_ws(s.subrange(0, k)),
    decreases s.len() - k,
{
    if k < s.len() {
        lemma_trim_end_skip(s.drop_last(), k);
        assert(s.drop_last().subrange(0, k) =~= s.subrange(0, k));
    } else {
        assert(s.subrange(0, k) =~= s);
    }
}

/// The characters of `v` from `start` to `end`, without surrounding Unicode whitespace.
fn trimmed_slice(v: &Vec<char>, start: usize, end: usize) -> (r: String)
    requires
        start <= end <= v.len(),
    ensures
        r@ == trim_ws(v@.subrange(start as int, end as int)),
{
    let ghost s = v@.subrange(start as int, end as int);
    let mut a = start;
    while a < end && is_unicode_ws(v[a])
        invariant
            start <= a <= end <= v.len(),
            s == v@.subrange(start as int, end as int),
            forall|j: int| 0 <= j < a - start ==> unicode_ws(#[trigger] s[j]),
        decreases end - a,
    {
        a = a + 1;
    }
    proof {
        lemma_trim_start_skip(s, a - start);
        let rest = s.subrange(a - start, s.len() as int);
        assert(rest =~= v@.subrange(a as int, end as int));
        if rest.len() > 0 {
            assert(!unicode_ws(rest[0]));
        }
    }
    let ghost mid = v@.subrange(a as int, end as int);
    let mut b = end;
    while b > a && is_unicode_ws(v[b - 1])
        invariant
            start <= a <= b <= end <= v.len(),
            mid == v@.subrange(a as int, end as int),
            forall|j: int| b - a <= j < mid.len() ==> unicode_ws(#[trigger] mid[j]),
        decreases b - a,
    {
        b = b - 1;
    }
    proof {
        lemma_trim_end_skip(mid, b - a);
        assert(mid.subrange(0, b - a) =~= v@.subrange(a as int, b as int));
        let kept = v@.subrange(a as int, b as int);
        if kept.len() > 0 {
            assert(!unicode_ws(kept.last()));
        }
    }
    let mut out: Vec<char> = Vec::new();
    let mut k = a;
    while k < b
        invariant
            a <= k <= b <= v.len(),
            out@ == v@.subrange(a as int, k as int),
        decreases b - k,
    {
        out.push(v[k]);
        k = k + 1;
        assert(out@ =~= v@.subrange(a as int, k as int));
    }
    string_of(&out)
}

/// Advances `idx` past ASCII whitespace (see `ws_end`).
pub fn skip_whitespace(chars: &Vec<char>, idx: &mut usize)
    requires
        *old(idx) <= chars.len(),
    ensures
        *final(idx) == ws_end(chars@, *old(idx) as int),
{
    while *idx < chars.len() && is_ascii_ws(chars[*idx])
        invariant
            *idx <= chars.len(),
            ws_end(chars@, *idx as int) == ws_end(chars@, *old(idx) as int),
        decreases chars.len() - *idx,
    {
        *idx = *idx + 1;
    }
}

fn after_new_at(v: &Vec<char>, i: usize) -> (r: usize)
    requires
        i <= v.len(),
    ensures
        r == after_new(v@, i as int),
        r <= v.len(),
{
    let keyword = chars_of("new");
    proof {
        reveal_strlit("new");
    }
    if matches_at(v, &keyword, i) {
        let next = i + 3;
        if next >= v.len() || !(is_ascii_alnum(v[next]) || v[next] == '_' || v[next] == ':') {
            let mut idx = next;
            skip_whitespace(v, &mut idx);
            proof {
                lemma_ws_end(v@, next as int);
            }
            return idx;
        }
    }
    i
}

fn type_end_at(v: &Vec<char>, i: usize) -> (r: usize)
    requires
        i <= v.len(),
    ensures
        r == type_end(v@, i as int, 0),
{
    let mut idx = i;
    let mut depth: usize = 0;
    while idx < v.len()
        invariant
            i <= idx <= v.len(),
            depth <= idx - i,
            type_end(v@, idx as int, depth as nat) == type_end(v@, i as int, 0),
        decreases v.len() - idx,
    {
        let c = v[idx];
        if c == '<' {
            depth = depth + 1;
            idx = idx + 1;
        } else if c == '>' {
            if depth == 0 {
                return idx;
            }
            depth = depth - 1;
            idx = idx + 1;
        } else if depth == 0 && (c == '{' || c == '(' || is_ascii_ws(c)) {
            return idx;
        } else {
            idx = idx + 1;
        }
    }
    idx
}

fn paren_end_at(v: &Vec<char>, i: usize) -> (r: (usize, usize))
    requires
        1 <= i <= v.len(),
    ensures
        (r.0 as int, r.1 as nat) == paren_end(v@, i as int, 1),
{
    let mut idx = i;
    let mut depth: usize = 1;
    while idx < v.len() && depth > 0
        invariant
            1 <= i <= idx <= v.len(),
            depth <= idx - i + 1,
            paren_end(v@, idx as int, depth as nat) == paren_end(v@, i as int, 1),
        decreases v.len() - idx,
    {
        if v[idx] == '(' {
            depth = depth + 1;
        } else if v[idx] == ')' {
            depth = depth - 1;
        }
        idx = idx + 1;
    }
    (idx, depth)
}

fn name_end_at(v: &Vec<char>, i: usize) -> (r: usize)
    requires
        i <= v.len(),
    ensures
        r == name_end(v@, i as int),
{
    let mut idx = i;
    while idx < v.len()
        invariant
            i <= idx <= v.len(),
            name_end(v@, idx as int) == name_end(v@, i as int),
        decreases v.len() - idx,
    {
        let c = v[idx];
        if c == '=' {
            return idx;
        }
        if is_ascii_ws(c) {
            let mut look = idx;
            skip_whitespace(v, &mut look);
            proof {
                lemma_ws_end(v@, idx as int);
            }
            if look < v.len() && v[look] == '=' {
                return look;
            }
        }
        idx = idx + 1;
    }
    idx
}

fn value_end_at(v: &Vec<char>, i: usize) -> (r: Option<usize>)
    requires
        i <= v.len(),
    ensures
        match value_end(v@, i as int, 0, 0, 0) {
            Some(e) => r == Some(e as usize),
            None => r is None,
        },
{
    let mut idx = i;
    let mut brace: usize = 0;
    let mut paren: usize = 0;
    let mut bracket: usize = 0;
    while idx < v.len()
        invariant
            i <= idx <= v.len(),
            brace <= idx - i,
            paren <= idx - i,
            bracket <= idx - i,
            value_end(v@, idx as int, brace as nat, paren as nat, bracket as nat) == value_end(
                v@,
                i as int,
                0,
                0,
                0,
            ),
        decreases v.len() - idx,
    {
        let c = v[idx];
        if c == '{' {
            brace = brace + 1;
        } else if c == '}' {
            if brace == 0 && paren == 0 && bracket == 0 {
                return Some(idx);
            }
            if brace > 0 {
                brace = brace - 1;
            } else {
                return None;
            }
        } else if c == '(' {
            paren = paren + 1;
        } else if c == ')' {
            if paren == 0 {
                return None;
            }
            paren = paren - 1;
        } else if c == '[' {
            bracket = bracket + 1;
        } else if c == ']' {
            if bracket == 0 {
                return None;
            }
            bracket = bracket - 1;
        } else if c == ',' && brace == 0 && paren == 0 && bracket == 0 {
            return Some(idx);
        }
        idx = idx + 1;
    }
    Some(idx)
}

/// `acc` in front of the names of a parse result.
pub open spec fn prepend(acc: Seq<Seq<char>>, r: Option<(Seq<Seq<char>>, int)>) -> Option<
    (Seq<Seq<char>>, int),
> {
    match r {
        None => None,
        Some((rest, e)) => Some((acc + rest, e)),
    }
}

fn parse_members(v: &Vec<char>, start: usize) -> (r: Option<(Vec<String>, usize)>)
    requires
        start <= v.len(),
    ensures
        match members_from(v@, start as int) {
            None => r is None,
            Some((ms, e)) => r matches Some((names, end)) && views(names@) == ms && end == e,
        },
{
    let mut names: Vec<String> = Vec::new();
    let mut idx = start;
    assert(views(names@) =~= Seq::<Seq<char>>::empty());
    assert(prepend(views(names@), members_from(v@, idx as int)) =~= members_from(v@, start as int))
        by {
        match members_from(v@, start as int) {
            Some((ms, e)) => {
                assert(Seq::<Seq<char>>::empty() + ms =~= ms);
            },
            None => {},
        }
    }
    loop
        invariant
            idx <= v.len(),
            prepend(views(names@), members_from(v@, idx as int)) == members_from(v@, start as int),
        decreases v.len() - idx,
    {
        if idx >= v.len() {
            assert(views(names@) + Seq::<Seq<char>>::empty() =~= views(names@));
            return Some((names, idx));
        }
        if v[idx] == '}' {
            assert(views(names@) + Seq::<Seq<char>>::empty() =~= views(names@));
            return Some((names, idx + 1));
        }
        let n = name_end_at(v, idx);
        proof {
            lemma_name_end(v@, idx as int);
        }
        if n >= v.len() || v[n] != '=' {
            return None;
        }
        let name = trimmed_slice(v, idx, n);
        if name.as_str().unicode_len() == 0 {
            return None;
        }
        proof {
            lemma_value_end(v@, n + 1, 0, 0, 0);
        }
        match value_end_at(v, n + 1) {
            None => {
                return None;
            },
            Some(e) => {
                if e >= v.len() {
                    return None;
                }
                if v[e] == ',' {
                    let ghost before = views(names@);
                    names.push(name);
                    proof {
                        assert(views(names@) =~= before.push(name@));
                        match members_from(v@, e + 1) {
                            Some((rest, end)) => {
                                assert(before + (seq![name@] + rest) =~= views(names@) + rest);
                            },
                            None => {},
                        }
                    }
                    idx = e + 1;
                } else if v[e] == '}' {
                    let ghost before = views(names@);
                    names.push(name);
                    proof {
                        assert(views(names@) =~= before + seq![name@]);
                    }
                    return Some((names, e + 1));
                } else {
                    return None;
                }
            },
        }
    }
}

/// Whether `r` is the parse of `text` (see `parse_initializer`): nothing, or its type name and
/// members.
pub open spec fn parsed_as(r: Option<ParsedInitializer>, text: Seq<char>) -> bool {
    match parse_initializer(text) {
        None => r is None,
        Some((type_path, members)) => r matches Some(p) && p.type_path@ == type_path && views(p.members@)
            == members,
    }
}

/// A leading `new` keyword, followed by a space, is skipped by `parse_object_initializer`: the
/// parses of a text with and without it are both nothing, or the same type name and members,
/// where the text does not already start with `new`.
pub proof fn law_leading_new_parsed(
    t: Seq<char>,
    with_new: Option<ParsedInitializer>,
    without: Option<ParsedInitializer>,
)
    requires
        !occurs_at(t, "new"@, ws_end(t, 0)),
        parsed_as(with_new, "new "@ + t),
        parsed_as(without, t),
    ensures
        (with_new is None && without is None) || (with_new matches Some(a) && without matches Some(b)
            && a.type_path@ == b.type_path@ && views(a.members@) == views(b.members@)),
{
    law_leading_new(t);
}

/// Parses an object initializer such as `new Demo.Point<int> { X = 1, Y = f(2) }` into its
/// type name and the members it assigns (see `parse_initializer`).
pub fn parse_object_initializer(text: &str) -> (r: Option<ParsedInitializer>)
    ensures
        parsed_as(r, text@),
{
    let v = chars_of(text);
    let len = v.len();
    let mut idx: usize = 0;
    skip_whitespace(&v, &mut idx);
    proof {
        lemma_ws_end(v@, 0);
    }
    if idx >= len {
        return None;
    }
    idx = after_new_at(&v, idx);
    let type_start = idx;
    let te = type_end_at(&v, idx);
    proof {
        lemma_type_end(v@, idx as int, 0);
    }
    let type_path = trimmed_slice(&v, type_start, te);
    if te == type_start || type_path.as_str().unicode_len() == 0 {
        return None;
    }
    idx = te;
    skip_whitespace(&v, &mut idx);
    proof {
        lemma_ws_end(v@, te as int);
    }
    if idx < len && v[idx] == '(' {
        let (p, depth) = paren_end_at(&v, idx + 1);
        proof {
            lemma_paren_end(v@, idx + 1, 1);
        }
        if depth != 0 {
            return None;
        }
        let ghost p0 = p;
        idx = p;
        skip_whitespace(&v, &mut idx);
        proof {
            lemma_ws_end(v@, p0 as int);
        }
    }
    if idx >= len || v[idx] != '{' {
        return None;
    }
    let open = idx;
    idx = idx + 1;
    skip_whitespace(&v, &mut idx);
    proof {
        lemma_ws_end(v@, open + 1);
    }
    if idx >= len {
        return None;
    }
    match parse_members(&v, idx) {
        None => None,
        Some((members, e)) => {
            proof {
                lemma_members_from(v@, idx as int);
            }
            let mut end = e;
            skip_whitespace(&v, &mut end);
            if end != len {
                return None;
            }
            Some(ParsedInitializer { type_path, members })
        },
    }
}

/// The names of `missing`, each in backquotes.
pub open spec fn quoted_names(missing: Seq<Seq<char>>) -> Seq<Seq<char>> {
    missing.map_values(|m: Seq<char>| "`"@ + m + "`"@)
}

/// The diagnostic for an initializer of `ty` that leaves required members unassigned:
/// one member is named alone, several as a list ending in `and`.
pub open spec fn missing_required_message(ty: Seq<char>, missing: Seq<Seq<char>>) -> Seq<char> {
    if missing.len() == 1 {
        "initializer for `"@ + ty + "` must assign required member `"@ + missing[0] + "`"@
    } else {
        "initializer for `"@ + ty + "` must assign required members "@ + join_seq(
            quoted_names(missing.drop_last()),
            ", "@,
        ) + " and `"@ + missing.last() + "`"@
    }
}

/// Formats the diagnostic for unassigned required members (see `missing_required_message`).
pub fn format_missing_required_message(ty: &str, missing: &[String]) -> (r: String)
    requires
        missing.len() > 0,
    ensures
        r@ == missing_required_message(ty@, views(missing@)),
{
    let mut r = owned("initializer for `");
    r.append(ty);
    if missing.len() == 1 {
        r.append("` must assign required member `");
        r.append(missing[0].as_str());
        r.append("`");
        return r;
    }
    r.append("` must assign required members ");
    let last = missing.len() - 1;
    let mut head: Vec<String> = Vec::new();
    let mut i: usize = 0;
    while i < last
        invariant
            i <= last == missing.len() - 1,
            views(head@) == quoted_names(views(missing@).subrange(0, i as int)),
        decreases last - i,
    {
        let ghost prev = views(head@);
        head.push(cat3("`", missing[i].as_str(), "`"));
        i = i + 1;
        assert(views(missing@).subrange(0, i as int) =~= views(missing@).subrange(0, i - 1).push(
            views(missing@)[i - 1],
        ));
        assert(views(head@) =~= prev.push("`"@ + missing@[i - 1]@ + "`"@));
        assert(views(head@) =~= quoted_names(views(missing@).subrange(0, i as int)));
    }
    assert(views(missing@).subrange(0, last as int) =~= views(missing@).drop_last());
    r.append(join(&head, ", ").as_str());
    r.append(" and `");
    r.append(missing[last].as_str());
    r.append("`");
    r
}

/// `s` without leading and trailing Unicode whitespace (see `trim_ws`).
pub fn trim_text_ws(s: &str) -> (r: String)
    ensures
        r@ == trim_ws(s@),
{
    let v = chars_of(s);
    assert(v@.subrange(0, v.len() as int) =~= v@);
    trimmed_slice(&v, 0, v.len())
}

} // verus!
