use vstd::prelude::*;

use crate::text::{chars_of, i128_text, int_text, join, join_seq, nat_text, owned, string_of, u128_text, views};
use crate::values::{ConstModel, ConstValue, field_models, lemma_struct_model};

verus! {

/// A string shown in double quotes, with `"` and `\` escaped by a backslash.
pub open spec fn quoted(s: Seq<char>) -> Seq<char> {
    seq!['"'] + escape_quotes(s) + seq!['"']
}

/// `s` with `"` and `\` preceded by a backslash.
pub open spec fn escape_quotes(s: Seq<char>) -> Seq<char>
    decreases s.len(),
{
    if s.len() == 0 {
        Seq::empty()
    } else if s.last() == '"' || s.last() == '\\' {
        escape_quotes(s.drop_last()) + seq!['\\', s.last()]
    } else {
        escape_quotes(s.drop_last()).push(s.last())
    }
}

/// The number of fields of a struct model, plus one; zero for other models.
pub open spec fn debug_width(v: ConstModel) -> nat {
    match v {
        ConstModel::Struct { fields, .. } => fields.len() + 1,
        _ => 0,
    }
}

/// The diagnostic rendering of a constant value, as it appears in error messages.
pub open spec fn debug_text(v: ConstModel) -> Seq<char>
    decreases v, debug_width(v),
{
    match v {
        ConstModel::Int(x) => "Int("@ + int_text(x as int) + ")"@,
        ConstModel::Int32(x) => "Int32("@ + int_text(x as int) + ")"@,
        ConstModel::UInt(x) => "UInt("@ + nat_text(x as nat) + ")"@,
        ConstModel::Bool(b) => if b {
            "Bool(true)"@
        } else {
            "Bool(false)"@
        },
        ConstModel::Char(c) => "Char("@ + nat_text(c as nat) + ")"@,
        ConstModel::Str { id, value } => "Str { id: "@ + nat_text(id as nat) + ", value: "@
            + quoted(value) + " }"@,
        ConstModel::RawStr(s) => "RawStr("@ + quoted(s) + ")"@,
        ConstModel::Symbol(s) => "Symbol("@ + quoted(s) + ")"@,
        ConstModel::Enum { type_path, variant, discriminant } => "Enum { type_path: "@ + quoted(
            type_path,
        ) + ", variant: "@ + quoted(variant) + ", discriminant: "@ + int_text(discriminant as int)
            + " }"@,
        ConstModel::Struct { type_path, fields } => "Struct { type_path: "@ + quoted(type_path)
            + ", fields: ["@ + join_seq(field_debug(v, fields.len()), ", "@) + "] }"@,
        ConstModel::Null => "Null"@,
        ConstModel::Unit => "Unit"@,
        ConstModel::Unknown => "Unknown"@,
    }
}

/// `("name", value)` for each of the first `n` fields of a struct model.
pub open spec fn field_debug(v: ConstModel, n: nat) -> Seq<Seq<char>>
    decreases v, n,
{
    match v {
        ConstModel::Struct { fields, .. } => {
            if n == 0 || n > fields.len() {
                Seq::empty()
            } else {
                proof {
                    assert(decreases_to!(v => fields));
                    assert(decreases_to!(fields => fields[n - 1]));
                    assert(decreases_to!(fields[n - 1] => fields[n - 1].1));
                }
                field_debug(v, (n - 1) as nat).push(
                    "("@ + quoted(fields[n - 1].0) + ", "@ + debug_text(fields[n - 1].1) + ")"@,
                )
            }
        },
        _ => Seq::empty(),
    }
}

fn quote_text(s: &str) -> (r: String)
    ensures
        r@ == quoted(s@),
{
    let v = chars_of(s);
    let mut out: Vec<char> = Vec::new();
    out.push('"');
    let mut i: usize = 0;
    while i < v.len()
        invariant
            i <= v.len(),
            v@ == s@,
            out@ == seq!['"'] + escape_quotes(v@.subrange(0, i as int)),
        decreases v.len() - i,
    {
        let ghost prev = v@.subrange(0, i as int);
        let c = v[i];
        if c == '"' || c == '\\' {
            out.push('\\');
        }
        out.push(c);
        i = i + 1;
        proof {
            let cur = v@.subrange(0, i as int);
            assert(cur.drop_last() =~= prev);
            assert(out@ =~= seq!['"'] + escape_quotes(cur));
        }
    }
    out.push('"');
    assert(v@.subrange(0, v.len() as int) =~= v@);
    assert(out@ =~= quoted(s@));
    string_of(&out)
}

proof fn lemma_field_debug_prefix(v: ConstValue, n: nat)
    requires
        v is Struct,
        n <= v->fields@.len(),
    ensures
        field_debug(v@, n) == field_models(v->fields@).subrange(0, n as int).map_values(
            |f: (Seq<char>, ConstModel)| "("@ + quoted(f.0) + ", "@ + debug_text(f.1) + ")"@,
        ),
    decreases n,
{
    lemma_struct_model(v);
    if n > 0 {
        lemma_field_debug_prefix(v, (n - 1) as nat);
    }
    assert(field_debug(v@, n) =~= field_models(v->fields@).subrange(0, n as int).map_values(
        |f: (Seq<char>, ConstModel)| "("@ + quoted(f.0) + ", "@ + debug_text(f.1) + ")"@,
    ));
}

/// The diagnostic rendering of a value (see `debug_text`).
pub fn debug_value(value: &ConstValue) -> (r: String)
    ensures
        r@ == debug_text(value@),
    decreases value,
{
    match value {
        ConstValue::Int(x) => {
            let mut r = owned("Int(");
            r.append(i128_text(*x).as_str());
            r.append(")");
            r
        },
        ConstValue::Int32(x) => {
            let mut r = owned("Int32(");
            r.append(i128_text(*x).as_str());
            r.append(")");
            r
        },
        ConstValue::UInt(x) => {
            let mut r = owned("UInt(");
            r.append(u128_text(*x).as_str());
            r.append(")");
            r
        },
        ConstValue::Bool(b) => if *b {
            owned("Bool(true)")
        } else {
            owned("Bool(false)")
        },
        ConstValue::Char(c) => {
            let mut r = owned("Char(");
            r.append(u128_text(*c as u128).as_str());
            r.append(")");
            r
        },
        ConstValue::Str { id, value } => {
            let mut r = owned("Str { id: ");
            r.append(u128_text(*id as u128).as_str());
            r.append(", value: ");
            r.append(quote_text(value.as_str()).as_str());
            r.append(" }");
            r
        },
        ConstValue::RawStr(s) => {
            let mut r = owned("RawStr(");
            r.append(quote_text(s.as_str()).as_str());
            r.append(")");
            r
        },
        ConstValue::Symbol(s) => {
            let mut r = owned("Symbol(");
            r.append(quote_text(s.as_str()).as_str());
            r.append(")");
            r
        },
        ConstValue::Enum { type_path, variant, discriminant } => {
            let mut r = owned("Enum { type_path: ");
            r.append(quote_text(type_path.as_str()).as_str());
            r.append(", variant: ");
            r.append(quote_text(variant.as_str()).as_str());
            r.append(", discriminant: ");
            r.append(i128_text(*discriminant).as_str());
            r.append(" }");
            r
        },
        ConstValue::Struct { type_path, fields } => {
            let mut parts: Vec<String> = Vec::new();
            let mut i: usize = 0;
            while i < fields.len()
                invariant
                    i <= fields.len(),
                    *value is Struct,
                    value->fields == *fields,
                    views(parts@) == field_models(fields@).subrange(0, i as int).map_values(
                        |f: (Seq<char>, ConstModel)| "("@ + quoted(f.0) + ", "@ + debug_text(f.1)
                            + ")"@,
                    ),
                decreases fields.len() - i,
            {
                proof {
                    assert(decreases_to!(*value => *fields));
                    assert(decreases_to!(*fields => fields@));
                    assert(decreases_to!(fields@ => fields@[i as int]));
                    assert(decreases_to!(fields@[i as int] => fields@[i as int].1));
                }
                let mut p = owned("(");
                p.append(quote_text(fields[i].0.as_str()).as_str());
                p.append(", ");
                p.append(debug_value(&fields[i].1).as_str());
                p.append(")");
                let ghost prev = parts@;
                let ghost pv = p@;
                assert(field_models(fields@)[i as int] == (fields@[i as int].0@, fields@[i as int].1@));
                parts.push(p);
                assert(views(parts@) =~= views(prev).push(pv));
                i = i + 1;
                assert(views(parts@) =~= field_models(fields@).subrange(0, i as int).map_values(
                    |f: (Seq<char>, ConstModel)| "("@ + quoted(f.0) + ", "@ + debug_text(f.1)
                        + ")"@,
                ));
            }
            proof {
                lemma_field_debug_prefix(*value, fields@.len());
                lemma_struct_model(*value);
            }
            let mut r = owned("Struct { type_path: ");
            r.append(quote_text(type_path.as_str()).as_str());
            r.append(", fields: [");
            r.append(join(&parts, ", ").as_str());
            r.append("] }");
            r
        },
        ConstValue::Null => owned("Null"),
        ConstValue::Unit => owned("Unit"),
        ConstValue::Unknown => owned("Unknown"),
    }
}

} // verus!
