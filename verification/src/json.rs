//! The JSON text of a delta: an array with one object for each operation,
//! `{"insert":"text"}`, `{"retain":3}` or `{"delete":2}`, without white space.

use crate::checksum::{hex_digit, hex_digit_text};
use crate::delta::Delta;
use crate::op::{ops_view, Op, Operation};
use crate::server_folder::ServerFolder;
use vstd::prelude::*;

verus! {

/// The decimal digits of `n`, most significant first.
pub open spec fn digits(n: nat) -> Seq<char>
    decreases n,
{
    if n < 10 {
        seq![hex_digit(n as u64)]
    } else {
        digits(n / 10).push(hex_digit((n % 10) as u64))
    }
}

/// How a character stands inside a JSON string: the quote and the backslash
/// behind a backslash, line feed, carriage return and tab by their letters,
/// the other characters below the space by their four hexadecimal digits,
/// and every other character as it is.
pub open spec fn escape_char(c: char) -> Seq<char> {
    if c == '"' {
        seq!['\\', '"']
    } else if c == '\\' {
        seq!['\\', '\\']
    } else if c == '\n' {
        seq!['\\', 'n']
    } else if c == '\r' {
        seq!['\\', 'r']
    } else if c == '\t' {
        seq!['\\', 't']
    } else if (c as u32) < 0x20 {
        seq!['\\', 'u', '0', '0', hex_digit(((c as u32) / 16) as u64), hex_digit(
            ((c as u32) % 16) as u64,
        )]
    } else {
        seq![c]
    }
}

/// A text with each character escaped.
pub open spec fn escape(s: Seq<char>) -> Seq<char>
    decreases s.len(),
{
    if s.len() == 0 {
        Seq::empty()
    } else {
        escape(s.drop_last()) + escape_char(s.last())
    }
}

/// The JSON object of one operation.
pub open spec fn op_json(op: Op) -> Seq<char> {
    match op {
        Op::Insert(s) => "{\"insert\":\""@ + escape(s) + "\"}"@,
        Op::Retain(n) => "{\"retain\":"@ + digits(n) + "}"@,
        Op::Delete(n) => "{\"delete\":"@ + digits(n) + "}"@,
    }
}

/// The JSON objects of the operations, with a comma between neighbours.
pub open spec fn ops_json(ops: Seq<Op>) -> Seq<char>
    decreases ops.len(),
{
    if ops.len() == 0 {
        Seq::empty()
    } else if ops.len() == 1 {
        op_json(ops[0])
    } else {
        ops_json(ops.drop_last()) + ","@ + op_json(ops.last())
    }
}

/// The JSON text of a sequence of operations.
pub open spec fn json_text(ops: Seq<Op>) -> Seq<char> {
    "["@ + ops_json(ops) + "]"@
}

/// `String::push`: the character is appended to the text.
#[verifier::external_body]
fn push_char(out: &mut String, c: char)
    ensures
        final(out)@ == old(out)@.push(c),
{
    out.push(c);
}

/// Appends the decimal digits of `n`.
fn push_digits(out: &mut String, n: usize)
    ensures
        final(out)@ == old(out)@ + digits(n as nat),
    decreases n,
{
    let ghost before = out@;
    if n >= 10 {
        push_digits(out, n / 10);
    }
    let ghost mid = out@;
    out.append(hex_digit_text((n % 10) as u64));
    proof {
        if n >= 10 {
            assert(out@ =~= before + digits((n / 10) as nat).push(hex_digit((n % 10) as u64)));
        } else {
            assert(out@ =~= before + seq![hex_digit(n as u64)]);
        }
    }
}

/// Appends `c` as it stands inside a JSON string.
fn push_escaped_char(out: &mut String, c: char)
    ensures
        final(out)@ == old(out)@ + escape_char(c),
{
    let ghost before = out@;
    proof {
        reveal_strlit("\\\"");
        reveal_strlit("\\\\");
        reveal_strlit("\\n");
        reveal_strlit("\\r");
        reveal_strlit("\\t");
        reveal_strlit("\\u00");
    }
    if c == '"' {
        out.append("\\\"");
        assert(out@ =~= before + escape_char(c));
    } else if c == '\\' {
        out.append("\\\\");
        assert(out@ =~= before + escape_char(c));
    } else if c == '\n' {
        out.append("\\n");
        assert(out@ =~= before + escape_char(c));
    } else if c == '\r' {
        out.append("\\r");
        assert(out@ =~= before + escape_char(c));
    } else if c == '\t' {
        out.append("\\t");
        assert(out@ =~= before + escape_char(c));
    } else if (c as u32) < 0x20 {
        let code = c as u32;
        out.append("\\u00");
        out.append(hex_digit_text((code / 16) as u64));
        out.append(hex_digit_text((code % 16) as u64));
        assert(out@ =~= before + escape_char(c));
    } else {
        push_char(out, c);
        assert(out@ =~= before + escape_char(c));
    }
}

/// Appends `s` with each character escaped.
fn push_escaped(out: &mut String, s: &str)
    ensures
        final(out)@ == old(out)@ + escape(s@),
{
    let ghost before = out@;
    let ghost all = s@;
    proof {
        assert(all.take(0) =~= Seq::<char>::empty());
        assert(before + escape(all.take(0)) =~= before);
    }
    for c in it: s.chars()
        invariant
            it.seq() == all,
            out@ == before + escape(all.take(it.index())),
    {
        let ghost sofar = out@;
        proof {
            let upto = all.take(it.index() + 1);
            assert(upto.drop_last() =~= all.take(it.index()));
            assert(upto.last() == c);
        }
        push_escaped_char(out, c);
        proof {
            assert(out@ =~= before + (escape(all.take(it.index())) + escape_char(c)));
        }
    }
    proof {
        assert(all.take(all.len() as int) =~= all);
    }
}

/// Appends the JSON object of `op`.
fn push_op_json(out: &mut String, op: &Operation)
    ensures
        final(out)@ == old(out)@ + op_json(op@),
{
    let ghost before = out@;
    match op {
        Operation::Insert(s, _) => {
            out.append("{\"insert\":\"");
            push_escaped(out, s.as_str());
            out.append("\"}");
            assert(out@ =~= before + op_json(op@));
        },
        Operation::Retain(n, _) => {
            out.append("{\"retain\":");
            push_digits(out, *n);
            out.append("}");
            assert(out@ =~= before + op_json(op@));
        },
        Operation::Delete(n) => {
            out.append("{\"delete\":");
            push_digits(out, *n);
            out.append("}");
            assert(out@ =~= before + op_json(op@));
        },
    }
}

impl Delta {
    /// The delta as JSON text.
    pub fn to_json(&self) -> (json: String)
        ensures
            json@ == json_text(self@),
    {
        let ops = self.ops();
        let ghost all = self@;
        let mut out = String::new();
        out.append("[");
        let mut i: usize = 0;
        proof {
            assert(all.take(0) =~= Seq::<Op>::empty());
            assert(out@ =~= "["@ + ops_json(all.take(0)));
        }
        while i < ops.len()
            invariant
                i <= ops@.len(),
                ops_view(ops@) == all,
                out@ == "["@ + ops_json(all.take(i as int)),
            decreases ops@.len() - i,
        {
            let ghost sofar = ops_json(all.take(i as int));
            proof {
                let upto = all.take(i + 1);
                assert(upto.drop_last() =~= all.take(i as int));
                assert(upto.last() == ops@[i as int]@);
                if i == 0 {
                    assert(upto[0] == upto.last());
                }
            }
            if i > 0 {
                out.append(",");
            }
            push_op_json(&mut out, &ops[i]);
            proof {
                let item = op_json(ops@[i as int]@);
                if i > 0 {
                    assert(out@ =~= "["@ + (sofar + ","@ + item));
                } else {
                    assert(sofar =~= Seq::<char>::empty());
                    assert(out@ =~= "["@ + item);
                }
            }
            i = i + 1;
        }
        out.append("]");
        proof {
            assert(all.take(i as int) =~= all);
        }
        out
    }
}

impl ServerFolder {
    /// The folder's delta as JSON text.
    pub fn to_json(&self) -> (json: String)
        ensures
            json@ == json_text(self.delta_view()),
    {
        self.delta().to_json()
    }
}

} // verus!
