use vstd::prelude::*;

use vstd::string::StringExecFns;
use vstd::string::StrSliceExecFns;

use crate::vars::{VarName, IdentRef};
use crate::json::{Json, JsonV, jview, jview_seq, jview_fields, lemma_jview_seq, lemma_jview_fields};

verus! {

/// Relies on String::push: appends one character to the string.
#[verifier::external_body]
fn push_char(s: &mut String, c: char)
    ensures
        final(s)@ == old(s)@.push(c),
{
    s.push(c);
}

/// The character for one decimal digit.
pub open spec fn digit_char(d: nat) -> char {
    if d == 0 {
        '0'
    } else if d == 1 {
        '1'
    } else if d == 2 {
        '2'
    } else if d == 3 {
        '3'
    } else if d == 4 {
        '4'
    } else if d == 5 {
        '5'
    } else if d == 6 {
        '6'
    } else if d == 7 {
        '7'
    } else if d == 8 {
        '8'
    } else {
        '9'
    }
}

/// Decimal digits of `n`, most significant first.
pub open spec fn dec_digits(n: nat) -> Seq<char>
    decreases n,
{
    if n < 10 {
        seq![digit_char(n)]
    } else {
        dec_digits(n / 10).push(digit_char(n % 10))
    }
}

fn digit_str(d: u64) -> (r: &'static str)
    requires
        d < 10,
    ensures
        r@ == seq![digit_char(d as nat)],
{
    let r: &'static str = match d {
        0 => "0",
        1 => "1",
        2 => "2",
        3 => "3",
        4 => "4",
        5 => "5",
        6 => "6",
        7 => "7",
        8 => "8",
        _ => "9",
    };
    proof {
        reveal_strlit("0");
        reveal_strlit("1");
        reveal_strlit("2");
        reveal_strlit("3");
        reveal_strlit("4");
        reveal_strlit("5");
        reveal_strlit("6");
        reveal_strlit("7");
        reveal_strlit("8");
        reveal_strlit("9");
    }
    r
}

/// The decimal text of `n`.
pub fn u64_string(n: u64) -> (s: String)
    ensures
        s@ == dec_digits(n as nat),
    decreases n,
{
    if n < 10 {
        digit_str(n).to_owned()
    } else {
        let mut s = u64_string(n / 10);
        s.append(digit_str(n % 10));
        proof {
            assert(s@ == dec_digits((n / 10) as nat).push(digit_char((n % 10) as nat))) by {
                assert(dec_digits((n / 10) as nat) + seq![digit_char((n % 10) as nat)]
                    =~= dec_digits((n / 10) as nat).push(digit_char((n % 10) as nat)));
            }
        }
        s
    }
}

/// The character for one hexadecimal digit.
pub open spec fn hex_char(d: nat) -> char {
    if d < 10 {
        digit_char(d)
    } else if d == 10 {
        'a'
    } else if d == 11 {
        'b'
    } else if d == 12 {
        'c'
    } else if d == 13 {
        'd'
    } else if d == 14 {
        'e'
    } else {
        'f'
    }
}

/// How one character is written inside a JSON string literal: quotes and
/// backslashes are escaped, control characters become `\u00..`, and
/// everything else stands as itself.
pub open spec fn escaped_char(c: char) -> Seq<char> {
    if c == '"' {
        seq!['\\', '"']
    } else if c == '\\' {
        seq!['\\', '\\']
    } else if (c as u32) < 32 {
        seq!['\\', 'u', '0', '0', hex_char((c as u32 / 16) as nat), hex_char(
            (c as u32 % 16) as nat,
        )]
    } else {
        seq![c]
    }
}

/// The body of a JSON string literal for `s`.
pub open spec fn escaped(s: Seq<char>) -> Seq<char>
    decreases s,
{
    if s.len() == 0 {
        Seq::empty()
    } else {
        escaped(s.drop_last()) + escaped_char(s.last())
    }
}

/// A JSON string literal for `s`, quotes included.
pub open spec fn quoted(s: Seq<char>) -> Seq<char> {
    seq!['"'] + escaped(s) + seq!['"']
}

/// The JSON text of the first `i` elements of an array, commas between.
pub open spec fn arr_prefix(xs: Seq<JsonV>, i: int) -> Seq<char>
    decreases xs, i, 0int,
{
    if i <= 0 || i > xs.len() {
        Seq::empty()
    } else if i == 1 {
        json_text(xs[0])
    } else {
        arr_prefix(xs, i - 1) + seq![','] + json_text(xs[i - 1])
    }
}

/// The JSON text of the first `i` fields of an object, commas between.
pub open spec fn obj_prefix(fs: Seq<(Seq<char>, JsonV)>, i: int) -> Seq<char>
    decreases fs, i, 0int,
{
    if i <= 0 || i > fs.len() {
        Seq::empty()
    } else if i == 1 {
        quoted(fs[0].0) + seq![':'] + json_text(fs[0].1)
    } else {
        obj_prefix(fs, i - 1) + seq![','] + quoted(fs[i - 1].0) + seq![':'] + json_text(fs[i - 1].1)
    }
}

/// The compact JSON text of a value. Numbers stand as the literal text they
/// were read with.
pub open spec fn json_text(j: JsonV) -> Seq<char>
    decreases j, 0int, 1int,
{
    match j {
        JsonV::Null => "null"@,
        JsonV::Bool(b) => if b {
            "true"@
        } else {
            "false"@
        },
        JsonV::Num(s) => s,
        JsonV::Str(s) => quoted(s),
        JsonV::Arr(xs) => seq!['['] + arr_prefix(xs, xs.len() as int) + seq![']'],
        JsonV::Obj(fs) => seq!['{'] + obj_prefix(fs, fs.len() as int) + seq!['}'],
    }
}

fn hex_str(d: u64) -> (r: &'static str)
    requires
        d < 16,
    ensures
        r@ == seq![hex_char(d as nat)],
{
    let r: &'static str = match d {
        10 => "a",
        11 => "b",
        12 => "c",
        13 => "d",
        14 => "e",
        15 => "f",
        _ => {
            return digit_str(d);
        },
    };
    proof {
        reveal_strlit("a");
        reveal_strlit("b");
        reveal_strlit("c");
        reveal_strlit("d");
        reveal_strlit("e");
        reveal_strlit("f");
    }
    r
}

fn append_escaped(out: &mut String, s: &String)
    ensures
        final(out)@ == old(out)@ + escaped(s@),
{
    let n = s.as_str().unicode_len();
    let mut i: usize = 0;
    while i < n
        invariant
            n == s@.len(),
            i <= n,
            out@ == old(out)@ + escaped(s@.take(i as int)),
        decreases n - i,
    {
        let c = s.as_str().get_char(i);
        if c == '"' {
            out.append("\\\"");
            proof {
                reveal_strlit("\\\"");
                assert("\\\""@ =~= escaped_char(c));
            }
        } else if c == '\\' {
            out.append("\\\\");
            proof {
                reveal_strlit("\\\\");
                assert("\\\\"@ =~= escaped_char(c));
            }
        } else if (c as u32) < 32 {
            out.append("\\u00");
            out.append(hex_str((c as u32 / 16) as u64));
            out.append(hex_str((c as u32 % 16) as u64));
            proof {
                reveal_strlit("\\u00");
                assert("\\u00"@ + seq![hex_char((c as u32 / 16) as nat)] + seq![hex_char(
                    (c as u32 % 16) as nat,
                )] =~= escaped_char(c));
            }
        } else {
            push_char(out, c);
            proof {
                assert(seq![c] =~= escaped_char(c));
            }
        }
        proof {
            assert(s@.take(i as int + 1).drop_last() =~= s@.take(i as int));
            assert(s@.take(i as int + 1).last() == s@[i as int]);
            assert(out@ =~= old(out)@ + escaped(s@.take(i as int + 1)));
        }
        i = i + 1;
    }
    proof {
        assert(s@.take(n as int) =~= s@);
    }
}

/// Append the compact JSON text of `j`.
fn append_json(out: &mut String, j: &Json)
    ensures
        final(out)@ == old(out)@ + json_text(jview(*j)),
    decreases *j, 0int, 1int,
{
    match j {
        Json::Null => {
            out.append("null");
        },
        Json::Bool(b) => {
            if *b {
                out.append("true");
            } else {
                out.append("false");
            }
        },
        Json::Num(s) => {
            out.append(s.as_str());
        },
        Json::Str(s) => {
            out.append("\"");
            append_escaped(out, s);
            out.append("\"");
            proof {
                reveal_strlit("\"");
                assert(out@ =~= old(out)@ + quoted(s@));
            }
        },
        Json::Arr(xs) => {
            out.append("[");
            proof {
                reveal_strlit("[");
                reveal_strlit("]");
                reveal_strlit(",");
                lemma_jview_seq(xs@);
            }
            let ghost base = out@;
            let ghost gxs = jview_seq(xs@);
            let mut i: usize = 0;
            while i < xs.len()
                invariant
                    *j == Json::Arr(*xs),
                    i <= xs.len(),
                    gxs == jview_seq(xs@),
                    gxs.len() == xs@.len(),
                    forall|k: int| 0 <= k < xs@.len() ==> #[trigger] gxs[k] == jview(xs@[k]),
                    out@ == base + arr_prefix(gxs, i as int),
                    ","@ =~= seq![','],
                decreases xs.len() - i,
            {
                if i > 0 {
                    out.append(",");
                }
                proof {
                    assert(*j == Json::Arr(*xs));
                    assert(decreases_to!(*j => j->Arr_0));
                    assert(decreases_to!(*xs => xs@));
                    assert(decreases_to!(xs@ => xs@[i as int]));
                    assert(decreases_to!(*j => xs@[i as int]));
                }
                append_json(out, &xs[i]);
                proof {
                    assert(out@ =~= base + arr_prefix(gxs, i as int + 1));
                }
                i = i + 1;
            }
            out.append("]");
            proof {
                assert(out@ =~= old(out)@ + json_text(jview(*j))) by {
                    assert("["@ =~= seq!['[']);
                    assert("]"@ =~= seq![']']);
                }
            }
        },
        Json::Obj(fs) => {
            out.append("{");
            proof {
                reveal_strlit("{");
                reveal_strlit("}");
                reveal_strlit(",");
                reveal_strlit(":");
                reveal_strlit("\"");
                lemma_jview_fields(fs@);
            }
            let ghost base = out@;
            let ghost gfs = jview_fields(fs@);
            let mut i: usize = 0;
            while i < fs.len()
                invariant
                    *j == Json::Obj(*fs),
                    i <= fs.len(),
                    gfs == jview_fields(fs@),
                    gfs.len() == fs@.len(),
                    forall|k: int| 0 <= k < fs@.len() ==> #[trigger] gfs[k] == (
                        fs@[k].0@,
                        jview(fs@[k].1),
                    ),
                    out@ == base + obj_prefix(gfs, i as int),
                    ","@ =~= seq![','],
                    ":"@ =~= seq![':'],
                    "\""@ =~= seq!['"'],
                decreases fs.len() - i,
            {
                if i > 0 {
                    out.append(",");
                }
                out.append("\"");
                append_escaped(out, &fs[i].0);
                out.append("\"");
                out.append(":");
                proof {
                    assert(*j == Json::Obj(*fs));
                    assert(decreases_to!(*j => j->Obj_0));
                    assert(decreases_to!(*fs => fs@));
                    assert(decreases_to!(fs@ => fs@[i as int]));
                    assert(decreases_to!(fs@[i as int] => fs@[i as int].1));
                    assert(decreases_to!(*j => fs@[i as int].1));
                }
                append_json(out, &fs[i].1);
                proof {
                    assert(out@ =~= base + obj_prefix(gfs, i as int + 1));
                }
                i = i + 1;
            }
            out.append("}");
            proof {
                assert(out@ =~= old(out)@ + json_text(jview(*j))) by {
                    assert("{"@ =~= seq!['{']);
                    assert("}"@ =~= seq!['}']);
                }
            }
        },
    }
}

/// The compact JSON text of a value.
pub fn json_to_text(j: &Json) -> (s: String)
    ensures
        s@ == json_text(jview(*j)),
{
    let mut s = String::new();
    append_json(&mut s, j);
    proof {
        assert(Seq::<char>::empty() + json_text(jview(*j)) =~= json_text(jview(*j)));
    }
    s
}

/// The text of a query variable name.
pub open spec fn var_text(v: VarName) -> Seq<char> {
    "v_"@ + dec_digits(v.doc as nat) + "_"@ + dec_digits(v.seq as nat)
}

/// The text standing for a node's identity inside a mutation payload: a
/// `uid(..)` lookup of a bound variable, or a blank-node label for a fresh
/// identity.
pub open spec fn ref_text(r: IdentRef) -> Seq<char> {
    match r {
        IdentRef::Bound(v) => "uid("@ + var_text(v) + ")"@,
        IdentRef::Fresh(v) => "_:"@ + var_text(v),
    }
}

/// The guard condition applied to a conditional mutation: run only if the
/// guard variable matched no existing entity.
pub open spec fn cond_text(v: VarName) -> Seq<char> {
    "@if(eq(len("@ + var_text(v) + "), 0))"@
}

/// The name of a query variable, `v_<doc>_<seq>`.
pub fn render_var(v: &VarName) -> (s: String)
    ensures
        s@ == var_text(*v),
{
    let mut s: String = "v_".to_owned();
    s.append(u64_string(v.doc).as_str());
    s.append("_");
    s.append(u64_string(v.seq).as_str());
    proof {
        reveal_strlit("v_");
        reveal_strlit("_");
    }
    s
}

/// The identity-reference text used in mutation payloads.
pub fn render_ref(r: &IdentRef) -> (s: String)
    ensures
        s@ == ref_text(*r),
{
    match r {
        IdentRef::Bound(v) => {
            let mut s: String = "uid(".to_owned();
            s.append(render_var(v).as_str());
            s.append(")");
            proof {
                reveal_strlit("uid(");
                reveal_strlit(")");
            }
            s
        },
        IdentRef::Fresh(v) => {
            let mut s: String = "_:".to_owned();
            s.append(render_var(v).as_str());
            proof {
                reveal_strlit("_:");
            }
            s
        },
    }
}

/// The guard text of a conditional mutation.
pub fn render_cond(v: &VarName) -> (s: String)
    ensures
        s@ == cond_text(*v),
{
    let mut s: String = "@if(eq(len(".to_owned();
    s.append(render_var(v).as_str());
    s.append("), 0))");
    proof {
        reveal_strlit("@if(eq(len(");
        reveal_strlit("), 0))");
    }
    s
}

} // verus!
