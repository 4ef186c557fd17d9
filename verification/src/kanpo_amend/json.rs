//! The JSON form of a structured amendment document, as published:
//! `{"format":…,"blocks":[…]}`, each block tagged by `kind`, a run's
//! `underline` written only where it is set.

use crate::kanpo_amend::model::{blocks_view, runs_view, Block, BlockView, Document, Run};
use crate::text::{append_chars, chars_of, join, string_of};
use vstd::prelude::*;

verus! {

/// The lower-case hexadecimal digit of `n` (below 16).
pub open spec fn hex_digit(n: u32) -> char {
    if n < 10 {
        ((48 + n) as u8) as char
    } else {
        ((87 + n) as u8) as char
    }
}

/// One character inside a JSON string: `"` and `\` and the control
/// characters escaped (the short forms where JSON has them, else
/// `\u00XX`), anything else as it is.
pub open spec fn escape_char(c: char) -> Seq<char> {
    if c == '"' {
        seq!['\\', '"']
    } else if c == '\\' {
        seq!['\\', '\\']
    } else if c == '\n' {
        seq!['\\', 'n']
    } else if c == '\r' {
        seq!['\\', 'r']
    } else if c == '\t' {
        seq!['\\', 't']
    } else if c == '\u{8}' {
        seq!['\\', 'b']
    } else if c == '\u{c}' {
        seq!['\\', 'f']
    } else if (c as u32) < 0x20 {
        seq!['\\', 'u', '0', '0', hex_digit((c as u32) / 16), hex_digit((c as u32) % 16)]
    } else {
        seq![c]
    }
}

/// The characters of `s`, each escaped.
pub open spec fn escaped(s: Seq<char>) -> Seq<char>
    decreases s.len(),
{
    if s.len() == 0 {
        Seq::empty()
    } else {
        escaped(s.drop_last()) + escape_char(s.last())
    }
}

/// `s` as a JSON string.
pub open spec fn json_string(s: Seq<char>) -> Seq<char> {
    seq!['"'] + escaped(s) + seq!['"']
}

/// A run: its text, and `"underline":true` where it is underlined.
pub open spec fn run_json(r: (Seq<char>, bool)) -> Seq<char> {
    "{\"text\":"@ + json_string(r.0) + (if r.1 { ",\"underline\":true"@ } else { Seq::empty() }) + "}"@
}

/// A list of runs.
pub open spec fn runs_json(rs: Seq<(Seq<char>, bool)>) -> Seq<char> {
    "["@ + join(Seq::new(rs.len(), |i: int| run_json(rs[i])), ","@) + "]"@
}

/// A block, tagged by its kind.
pub open spec fn block_json(b: BlockView) -> Seq<char> {
    match b {
        BlockView::Paragraph(runs) => "{\"kind\":\"paragraph\",\"runs\":"@ + runs_json(runs) + "}"@,
        BlockView::Shinkyu(after, before) => "{\"kind\":\"shinkyu\",\"after\":"@ + runs_json(after) + ",\"before\":"@
            + runs_json(before) + "}"@,
    }
}

/// A document: its format and its blocks.
pub open spec fn document_json(format: Seq<char>, blocks: Seq<BlockView>) -> Seq<char> {
    "{\"format\":"@ + json_string(format) + ",\"blocks\":["@ + join(
        Seq::new(blocks.len(), |i: int| block_json(blocks[i])),
        ","@,
    ) + "]}"@
}

fn hex_digit_exec(n: u32) -> (c: char)
    requires
        n < 16,
    ensures
        c == hex_digit(n),
{
    if n < 10 {
        (48u8 + n as u8) as char
    } else {
        (87u8 + n as u8) as char
    }
}

/// Appends `s` as a JSON string.
fn push_json_string(out: &mut Vec<char>, s: &str)
    ensures
        final(out)@ == old(out)@ + json_string(s@),
{
    let cs = chars_of(s);
    out.push('"');
    let ghost start = out@;
    let mut i: usize = 0;
    while i < cs.len()
        invariant
            i <= cs.len(),
            cs@ == s@,
            out@ == start + escaped(cs@.take(i as int)),
        decreases cs.len() - i,
    {
        let c = cs[i];
        let u = c as u32;
        let ghost before = out@;
        if c == '"' {
            out.push('\\');
            out.push('"');
        } else if c == '\\' {
            out.push('\\');
            out.push('\\');
        } else if c == '\n' {
            out.push('\\');
            out.push('n');
        } else if c == '\r' {
            out.push('\\');
            out.push('r');
        } else if c == '\t' {
            out.push('\\');
            out.push('t');
        } else if c == '\u{8}' {
            out.push('\\');
            out.push('b');
        } else if c == '\u{c}' {
            out.push('\\');
            out.push('f');
        } else if u < 0x20 {
            out.push('\\');
            out.push('u');
            out.push('0');
            out.push('0');
            out.push(hex_digit_exec(u / 16));
            out.push(hex_digit_exec(u % 16));
        } else {
            out.push(c);
        }
        proof {
            assert(cs@.take(i + 1).drop_last() =~= cs@.take(i as int));
            assert(cs@.take(i + 1).last() == c);
            assert(out@ =~= before + escape_char(c));
        }
        i = i + 1;
    }
    assert(cs@.take(cs.len() as int) =~= cs@);
    out.push('"');
    assert(out@ =~= old(out)@ + json_string(s@));
}

/// Appends a list of runs.
fn push_runs_json(out: &mut Vec<char>, rs: &Vec<Run>)
    ensures
        final(out)@ == old(out)@ + runs_json(runs_view(rs@)),
{
    let ghost rv = runs_view(rs@);
    let ghost parts = Seq::new(rv.len(), |i: int| run_json(rv[i]));
    append_chars(out, &chars_of("["));
    let ghost start = out@;
    let mut i: usize = 0;
    while i < rs.len()
        invariant
            i <= rs.len(),
            rv == runs_view(rs@),
            parts == Seq::new(rv.len(), |i: int| run_json(rv[i])),
            out@ == start + join(parts.take(i as int), ","@),
        decreases rs.len() - i,
    {
        let ghost before = out@;
        if i > 0 {
            append_chars(out, &chars_of(","));
        }
        append_chars(out, &chars_of("{\"text\":"));
        push_json_string(out, rs[i].text.as_str());
        if rs[i].underline {
            append_chars(out, &chars_of(",\"underline\":true"));
        }
        append_chars(out, &chars_of("}"));
        proof {
            let p = parts.take(i + 1);
            assert(p.drop_last() =~= parts.take(i as int));
            assert(p.last() == run_json(rv[i as int]));
            assert(rv[i as int] == (rs@[i as int].text@, rs@[i as int].underline));
            if i == 0 {
                assert(parts.take(0) =~= Seq::<Seq<char>>::empty());
                assert(p.len() == 1);
                assert(join(p, ","@) == p[0]);
                assert(out@ =~= before + run_json(rv[i as int]));
            } else {
                assert(join(p, ","@) == join(p.drop_last(), ","@) + ","@ + p.last());
                assert(out@ =~= before + ","@ + run_json(rv[i as int]));
            }
        }
        i = i + 1;
    }
    assert(parts.take(rs.len() as int) =~= parts);
    append_chars(out, &chars_of("]"));
    assert(out@ =~= old(out)@ + runs_json(rv));
}

impl Document {
    /// The document in its published JSON form.
    pub fn to_json(&self) -> (s: String)
        ensures
            s@ == document_json(self.format@, blocks_view(self.blocks@)),
    {
        let ghost bv = blocks_view(self.blocks@);
        let ghost parts = Seq::new(bv.len(), |i: int| block_json(bv[i]));
        let mut out: Vec<char> = chars_of("{\"format\":");
        push_json_string(&mut out, self.format.as_str());
        append_chars(&mut out, &chars_of(",\"blocks\":["));
        let ghost start = out@;
        let mut i: usize = 0;
        while i < self.blocks.len()
            invariant
                i <= self.blocks.len(),
                bv == blocks_view(self.blocks@),
                parts == Seq::new(bv.len(), |i: int| block_json(bv[i])),
                out@ == start + join(parts.take(i as int), ","@),
            decreases self.blocks.len() - i,
        {
            let ghost before = out@;
            if i > 0 {
                append_chars(&mut out, &chars_of(","));
            }
            let ghost mid = out@;
            match &self.blocks[i] {
                Block::Paragraph { runs } => {
                    append_chars(&mut out, &chars_of("{\"kind\":\"paragraph\",\"runs\":"));
                    push_runs_json(&mut out, runs);
                    append_chars(&mut out, &chars_of("}"));
                },
                Block::Shinkyu { after, before } => {
                    append_chars(&mut out, &chars_of("{\"kind\":\"shinkyu\",\"after\":"));
                    push_runs_json(&mut out, after);
                    append_chars(&mut out, &chars_of(",\"before\":"));
                    push_runs_json(&mut out, before);
                    append_chars(&mut out, &chars_of("}"));
                },
            }
            proof {
                assert(out@ =~= mid + block_json(bv[i as int]));
                let p = parts.take(i + 1);
                assert(p.drop_last() =~= parts.take(i as int));
                assert(p.last() == block_json(bv[i as int]));
                if i == 0 {
                    assert(parts.take(0) =~= Seq::<Seq<char>>::empty());
                    assert(join(p, ","@) == p[0]);
                    assert(out@ =~= start + join(p, ","@));
                } else {
                    assert(join(p, ","@) == join(p.drop_last(), ","@) + ","@ + p.last());
                    assert(out@ =~= start + join(p, ","@));
                }
            }
            i = i + 1;
        }
        assert(parts.take(self.blocks.len() as int) =~= parts);
        append_chars(&mut out, &chars_of("]}"));
        assert(out@ =~= document_json(self.format@, bv));
        string_of(&out)
    }
}

} // verus!
