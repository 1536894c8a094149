use vstd::prelude::*;

use crate::text::{
    chars_of, i128_text, int_text, join, join_seq, nat_text, owned, push_char, string_of,
    u128_text, views,
};
use crate::values::{ConstModel, ConstValue, field_models, lemma_struct_model};

verus! {

/// The hexadecimal digit for `d` (upper or lower case).
pub open spec fn hex_char(d: nat, upper: bool) -> char {
    if d < 10 {
        crate::text::digit_char(d)
    } else if upper {
        if d == 10 {
            'A'
        } else if d == 11 {
            'B'
        } else if d == 12 {
            'C'
        } else if d == 13 {
            'D'
        } else if d == 14 {
            'E'
        } else {
            'F'
        }
    } else {
        if d == 10 {
            'a'
        } else if d == 11 {
            'b'
        } else if d == 12 {
            'c'
        } else if d == 13 {
            'd'
        } else if d == 14 {
            'e'
        } else {
            'f'
        }
    }
}

/// The hexadecimal text of `n`, without leading zeros.
pub open spec fn hex_text(n: nat, upper: bool) -> Seq<char>
    decreases n,
{
    if n < 16 {
        seq![hex_char(n, upper)]
    } else {
        hex_text(n / 16, upper).push(hex_char(n % 16, upper))
    }
}

/// `s` padded on the left with zeros to at least `width` characters.
pub open spec fn zero_pad(s: Seq<char>, width: nat) -> Seq<char> {
    if s.len() >= width {
        s
    } else {
        Seq::new((width - s.len()) as nat, |i: int| '0') + s
    }
}

/// How a UTF-16 code unit is shown inside a character label: the character with
/// Rust's default escaping, or `\u` and four upper-case hex digits for a surrogate.
pub open spec fn char_escape(c: u16) -> Seq<char> {
    if 0xD800 <= c && c <= 0xDFFF {
        seq!['\\', 'u'] + zero_pad(hex_text(c as nat, true), 4)
    } else if c == 0x09 {
        seq!['\\', 't']
    } else if c == 0x0D {
        seq!['\\', 'r']
    } else if c == 0x0A {
        seq!['\\', 'n']
    } else if c == 0x27 {
        seq!['\\', '\'']
    } else if c == 0x22 {
        seq!['\\', '"']
    } else if c == 0x5C {
        seq!['\\', '\\']
    } else if 0x20 <= c && c <= 0x7E {
        seq![(c as u32) as char]
    } else {
        seq!['\\', 'u', '{'] + hex_text(c as nat, false) + seq!['}']
    }
}

/// Whether `a` sorts strictly before `b`, comparing characters by code point.
pub open spec fn seq_lt(a: Seq<char>, b: Seq<char>) -> bool
    decreases a.len(),
{
    if a.len() == 0 {
        b.len() > 0
    } else if b.len() == 0 {
        false
    } else if a[0] != b[0] {
        (a[0] as u32) < (b[0] as u32)
    } else {
        seq_lt(a.drop_first(), b.drop_first())
    }
}

/// Where `x` goes in `sorted`: after every entry whose name does not sort after it.
pub open spec fn insert_pos(sorted: Seq<(Seq<char>, Seq<char>)>, x: (Seq<char>, Seq<char>)) -> int
    decreases sorted.len(),
{
    if sorted.len() == 0 {
        0
    } else if seq_lt(x.0, sorted.last().0) {
        insert_pos(sorted.drop_last(), x)
    } else {
        sorted.len() as int
    }
}

/// `entries` sorted by name, keeping the order of equal names.
pub open spec fn sort_by_name(entries: Seq<(Seq<char>, Seq<char>)>) -> Seq<(Seq<char>, Seq<char>)>
    decreases entries.len(),
{
    if entries.len() == 0 {
        Seq::empty()
    } else {
        let sorted = sort_by_name(entries.drop_last());
        sorted.insert(insert_pos(sorted, entries.last()), entries.last())
    }
}

/// `name=label` for each entry.
pub open spec fn entry_texts(entries: Seq<(Seq<char>, Seq<char>)>) -> Seq<Seq<char>> {
    entries.map_values(|e: (Seq<char>, Seq<char>)| e.0 + "="@ + e.1)
}

/// The number of fields of a struct model, plus one; zero for other models.
pub open spec fn model_width(v: ConstModel) -> nat {
    match v {
        ConstModel::Struct { fields, .. } => fields.len() + 1,
        _ => 0,
    }
}

/// The text that identifies a constant value in a cache key.
pub open spec fn label(v: ConstModel) -> Seq<char>
    decreases v, model_width(v),
{
    match v {
        ConstModel::Int(x) => "i:"@ + int_text(x as int),
        ConstModel::Int32(x) => "i:"@ + int_text(x as int),
        ConstModel::UInt(x) => "u:"@ + nat_text(x as nat),
        ConstModel::Bool(b) => "b:"@ + (if b {
            "true"@
        } else {
            "false"@
        }),
        ConstModel::Char(c) => "char:'"@ + char_escape(c) + "'"@,
        ConstModel::Str { value, .. } => "str:"@ + value,
        ConstModel::RawStr(s) => "raw:"@ + s,
        ConstModel::Symbol(s) => "sym:"@ + s,
        ConstModel::Enum { type_path, variant, discriminant } => "enum:"@ + type_path + "::"@
            + variant + "#"@ + int_text(discriminant as int),
        ConstModel::Struct { type_path, fields } => "struct:"@ + type_path + "{"@ + join_seq(
            entry_texts(sort_by_name(field_labels(v, fields.len()))),
            ","@,
        ) + "}"@,
        ConstModel::Null => "null"@,
        ConstModel::Unit => "unit"@,
        ConstModel::Unknown => "unknown"@,
    }
}

/// The name and label of each of the first `n` fields of the struct model `v`.
pub open spec fn field_labels(v: ConstModel, n: nat) -> Seq<(Seq<char>, Seq<char>)>
    decreases v, n,
{
    match v {
        ConstModel::Struct { fields, .. } => {
            if n == 0 || n > fields.len() {
                Seq::empty()
            } else {
                proof {
                    assert(decreases_to!(v => fields));
                    assert(decreases_to!(fields => fields[n - 1]));
                    assert(decreases_to!(fields[n - 1] => fields[n - 1].1));
                }
                field_labels(v, (n - 1) as nat).push((fields[n - 1].0, label(fields[n - 1].1)))
            }
        },
        _ => Seq::empty(),
    }
}

fn hex_digit(d: u32, upper: bool) -> (c: char)
    requires
        d < 16,
    ensures
        c == hex_char(d as nat, upper),
{
    if d < 10 {
        let c = crate::text::u128_text(d as u128);
        proof {
            assert(crate::text::nat_text(d as nat) == seq![crate::text::digit_char(d as nat)]);
        }
        let v = chars_of(c.as_str());
        v[0]
    } else if upper {
        if d == 10 {
            'A'
        } else if d == 11 {
            'B'
        } else if d == 12 {
            'C'
        } else if d == 13 {
            'D'
        } else if d == 14 {
            'E'
        } else {
            'F'
        }
    } else {
        if d == 10 {
            'a'
        } else if d == 11 {
            'b'
        } else if d == 12 {
            'c'
        } else if d == 13 {
            'd'
        } else if d == 14 {
            'e'
        } else {
            'f'
        }
    }
}

fn hex_chars(n: u32, upper: bool) -> (v: Vec<char>)
    ensures
        v@ == hex_text(n as nat, upper),
    decreases n,
{
    if n < 16 {
        let mut v = Vec::new();
        v.push(hex_digit(n, upper));
        v
    } else {
        let mut v = hex_chars(n / 16, upper);
        v.push(hex_digit(n % 16, upper));
        v
    }
}

fn pad_zeros(v: Vec<char>, width: usize) -> (r: Vec<char>)
    ensures
        r@ == zero_pad(v@, width as nat),
{
    if v.len() >= width {
        v
    } else {
        let fill = width - v.len();
        let mut w: Vec<char> = Vec::new();
        while w.len() < fill
            invariant
                w.len() <= fill,
                w@ == Seq::new(w@.len(), |i: int| '0'),
            decreases fill - w.len(),
        {
            w.push('0');
            assert(w@ =~= Seq::new(w@.len(), |i: int| '0'));
        }
        let ghost zeros = w@;
        let mut rest = v;
        w.append(&mut rest);
        assert(w@ =~= zero_pad(v@, width as nat));
        w
    }
}

/// The escaped form of a UTF-16 code unit (see `char_escape`).
pub fn escape_char(c: u16) -> (r: Vec<char>)
    ensures
        r@ == char_escape(c),
{
    let mut out: Vec<char> = Vec::new();
    if 0xD800 <= c && c <= 0xDFFF {
        out.push('\\');
        out.push('u');
        let mut digits = pad_zeros(hex_chars(c as u32, true), 4);
        out.append(&mut digits);
    } else if c == 0x09 {
        out.push('\\');
        out.push('t');
    } else if c == 0x0D {
        out.push('\\');
        out.push('r');
    } else if c == 0x0A {
        out.push('\\');
        out.push('n');
    } else if c == 0x27 {
        out.push('\\');
        out.push('\'');
    } else if c == 0x22 {
        out.push('\\');
        out.push('"');
    } else if c == 0x5C {
        out.push('\\');
        out.push('\\');
    } else if 0x20 <= c && c <= 0x7E {
        let b: u8 = c as u8;
        out.push(b as char);
    } else {
        out.push('\\');
        out.push('u');
        out.push('{');
        let mut digits = hex_chars(c as u32, false);
        out.append(&mut digits);
        out.push('}');
    }
    assert(out@ =~= char_escape(c));
    out
}

fn char_lt(a: char, b: char) -> (r: bool)
    ensures
        r == ((a as u32) < (b as u32)),
{
    (a as u32) < (b as u32)
}

/// Whether `a` sorts strictly before `b` (see `seq_lt`).
pub fn str_lt(a: &str, b: &str) -> (r: bool)
    ensures
        r == seq_lt(a@, b@),
{
    let x = chars_of(a);
    let y = chars_of(b);
    let mut i: usize = 0;
    assert(x@.subrange(0, x@.len() as int) =~= x@);
    assert(y@.subrange(0, y@.len() as int) =~= y@);
    while i < x.len() && i < y.len() && x[i] == y[i]
        invariant
            i <= x.len(),
            i <= y.len(),
            seq_lt(x@, y@) == seq_lt(x@.subrange(i as int, x@.len() as int), y@.subrange(i as int, y@.len() as int)),
        decreases x.len() - i,
    {
        let ghost xs = x@.subrange(i as int, x@.len() as int);
        let ghost ys = y@.subrange(i as int, y@.len() as int);
        assert(xs.drop_first() =~= x@.subrange(i + 1, x@.len() as int));
        assert(ys.drop_first() =~= y@.subrange(i + 1, y@.len() as int));
        i = i + 1;
    }
    proof {
        assert(x@.subrange(0, x@.len() as int) =~= x@);
        assert(y@.subrange(0, y@.len() as int) =~= y@);
    }
    if i == x.len() {
        i < y.len()
    } else if i == y.len() {
        false
    } else {
        char_lt(x[i], y[i])
    }
}

/// The models of (name, label) pairs.
pub open spec fn pair_views(v: Seq<(String, String)>) -> Seq<(Seq<char>, Seq<char>)> {
    v.map_values(|p: (String, String)| (p.0@, p.1@))
}

fn insert_sorted(sorted: &mut Vec<(String, String)>, x: (String, String))
    ensures
        pair_views(final(sorted)@) == pair_views(old(sorted)@).insert(
            insert_pos(pair_views(old(sorted)@), (x.0@, x.1@)),
            (x.0@, x.1@),
        ),
{
    let ghost s = pair_views(sorted@);
    let ghost xv = (x.0@, x.1@);
    let mut pos: usize = sorted.len();
    assert(s.subrange(0, s.len() as int) =~= s);
    while pos > 0 && str_lt(x.0.as_str(), sorted[pos - 1].0.as_str())
        invariant
            pos <= sorted@.len(),
            s == pair_views(sorted@),
            xv == (x.0@, x.1@),
            insert_pos(s, xv) == insert_pos(s.subrange(0, pos as int), xv),
        decreases pos,
    {
        let ghost sub = s.subrange(0, pos as int);
        assert(sub.drop_last() =~= s.subrange(0, pos - 1));
        assert(sub.last() == s[pos - 1]);
        pos = pos - 1;
    }
    proof {
        assert(s.subrange(0, s.len() as int) =~= s);
        let sub = s.subrange(0, pos as int);
        if pos > 0 {
            assert(sub.last() == s[pos - 1]);
        }
        assert(insert_pos(sub, xv) == pos);
    }
    sorted.insert(pos, x);
    assert(pair_views(sorted@) =~= s.insert(pos as int, xv));
}

fn sort_pairs(entries: Vec<(String, String)>) -> (r: Vec<(String, String)>)
    ensures
        pair_views(r@) == sort_by_name(pair_views(entries@)),
{
    let mut sorted: Vec<(String, String)> = Vec::new();
    let mut rest = entries;
    let ghost all = pair_views(rest@);
    let mut taken: Vec<(String, String)> = Vec::new();
    let mut i: usize = 0;
    let n = rest.len();
    while i < n
        invariant
            i <= n,
            n == all.len(),
            pair_views(rest@) == all,
            pair_views(sorted@) == sort_by_name(all.subrange(0, i as int)),
        decreases n - i,
    {
        let x = (rest[i].0.clone(), rest[i].1.clone());
        let ghost before = all.subrange(0, i as int);
        insert_sorted(&mut sorted, x);
        i = i + 1;
        proof {
            let cur = all.subrange(0, i as int);
            assert(cur.drop_last() =~= before);
            assert(cur.last() == (x.0@, x.1@));
        }
    }
    assert(all.subrange(0, n as int) =~= all);
    sorted
}

fn entry_strings(entries: &Vec<(String, String)>) -> (r: Vec<String>)
    ensures
        views(r@) == entry_texts(pair_views(entries@)),
{
    let mut out: Vec<String> = Vec::new();
    let mut i: usize = 0;
    while i < entries.len()
        invariant
            i <= entries.len(),
            views(out@) == entry_texts(pair_views(entries@)).subrange(0, i as int),
        decreases entries.len() - i,
    {
        let mut s = entries[i].0.clone();
        s.append("=");
        s.append(entries[i].1.as_str());
        let ghost prev = out@;
        let ghost sv = s@;
        assert(entry_texts(pair_views(entries@))[i as int] == s@);
        out.push(s);
        assert(views(out@) =~= views(prev).push(sv));
        i = i + 1;
        assert(views(out@) =~= entry_texts(pair_views(entries@)).subrange(0, i as int));
    }
    assert(entry_texts(pair_views(entries@)).subrange(0, entries.len() as int) =~= entry_texts(
        pair_views(entries@),
    ));
    out
}

proof fn lemma_field_labels_prefix(v: ConstValue, n: nat)
    requires
        v is Struct,
        n <= v->fields@.len(),
    ensures
        field_labels(v@, n) == field_models(v->fields@).subrange(0, n as int).map_values(
            |f: (Seq<char>, ConstModel)| (f.0, label(f.1)),
        ),
    decreases n,
{
    lemma_struct_model(v);
    if n > 0 {
        lemma_field_labels_prefix(v, (n - 1) as nat);
        assert(field_labels(v@, n) =~= field_models(v->fields@).subrange(0, n as int).map_values(
            |f: (Seq<char>, ConstModel)| (f.0, label(f.1)),
        ));
    } else {
        assert(field_labels(v@, n) =~= field_models(v->fields@).subrange(0, n as int).map_values(
            |f: (Seq<char>, ConstModel)| (f.0, label(f.1)),
        ));
    }
}

/// The text that identifies a constant value in a cache key (see `label`).
pub fn value_label(value: &ConstValue) -> (r: String)
    ensures
        r@ == label(value@),
    decreases value,
{
    match value {
        ConstValue::Int(v) | ConstValue::Int32(v) => {
            let mut r = owned("i:");
            r.append(i128_text(*v).as_str());
            r
        },
        ConstValue::UInt(v) => {
            let mut r = owned("u:");
            r.append(u128_text(*v).as_str());
            r
        },
        ConstValue::Bool(b) => {
            let mut r = owned("b:");
            if *b {
                r.append("true");
            } else {
                r.append("false");
            }
            r
        },
        ConstValue::Char(c) => {
            let mut r = owned("char:'");
            let e = string_of(&escape_char(*c));
            r.append(e.as_str());
            r.append("'");
            r
        },
        ConstValue::Str { value, .. } => {
            let mut r = owned("str:");
            r.append(value.as_str());
            r
        },
        ConstValue::RawStr(s) => {
            let mut r = owned("raw:");
            r.append(s.as_str());
            r
        },
        ConstValue::Symbol(s) => {
            let mut r = owned("sym:");
            r.append(s.as_str());
            r
        },
        ConstValue::Enum { type_path, variant, discriminant } => {
            let mut r = owned("enum:");
            r.append(type_path.as_str());
            r.append("::");
            r.append(variant.as_str());
            r.append("#");
            r.append(i128_text(*discriminant).as_str());
            r
        },
        ConstValue::Struct { type_path, fields } => {
            let mut entries: Vec<(String, String)> = Vec::new();
            let mut i: usize = 0;
            proof {
                lemma_struct_model(*value);
            }
            while i < fields.len()
                invariant
                    i <= fields.len(),
                    *value is Struct,
                    value->fields == *fields,
                    pair_views(entries@) == field_models(fields@).subrange(0, i as int).map_values(
                        |f: (Seq<char>, ConstModel)| (f.0, label(f.1)),
                    ),
                decreases fields.len() - i,
            {
                proof {
                    assert(decreases_to!(*value => *fields));
                    assert(decreases_to!(*fields => fields@));
                    assert(decreases_to!(fields@ => fields@[i as int]));
                    assert(decreases_to!(fields@[i as int] => fields@[i as int].1));
                }
                let l = value_label(&fields[i].1);
                let ghost prev = entries@;
                let nm = fields[i].0.clone();
                assert(field_models(fields@)[i as int] == (fields@[i as int].0@, fields@[i as int].1@));
                entries.push((nm, l));
                assert(pair_views(entries@) =~= pair_views(prev).push((nm@, l@)));
                i = i + 1;
                assert(pair_views(entries@) =~= field_models(fields@).subrange(0, i as int).map_values(
                    |f: (Seq<char>, ConstModel)| (f.0, label(f.1)),
                ));
            }
            proof {
                lemma_field_labels_prefix(*value, fields@.len());
                lemma_struct_model(*value);
                assert(field_models(fields@).len() == fields@.len());
            }
            let sorted = sort_pairs(entries);
            let texts = entry_strings(&sorted);
            let mut r = owned("struct:");
            r.append(type_path.as_str());
            r.append("{");
            r.append(join(&texts, ",").as_str());
            r.append("}");
            r
        },
        ConstValue::Null => owned("null"),
        ConstValue::Unit => owned("unit"),
        ConstValue::Unknown => owned("unknown"),
    }
}

} // verus!
