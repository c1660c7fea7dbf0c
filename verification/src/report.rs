//! Text reports about a generated font: missing glyphs and a Lua snippet.

use vstd::prelude::*;
use crate::font::GeneratedFont;
use crate::text::{chars_to_string, hex_digits, pad_zeros, push_chars, push_hex_padded, push_str, str_chars};

verus! {

/// One report line: `U+XXXX c` with at least four upper-case hex digits.
pub open spec fn char_report_line(c: char) -> Seq<char> {
    "U+"@ + pad_zeros(hex_digits(c as u32 as nat, true), 4) + seq![' ', c, '\n']
}

/// The report lines of the first `k` characters.
pub open spec fn char_report_lines(cs: Seq<char>, k: int) -> Seq<char>
    decreases k,
{
    if k <= 0 {
        Seq::empty()
    } else {
        char_report_lines(cs, k - 1) + char_report_line(cs[k - 1])
    }
}

/// Heading of the missing-glyph list.
pub open spec fn missing_heading() -> Seq<char> {
    "缺字（源字体与后备字体都没有，未写入图集）：\n"@
}

/// Heading of the fallback list.
pub open spec fn fallback_heading() -> Seq<char> {
    "\n以下字符使用了后备字体（常见于标题美工字体缺「+」等符号）：\n"@
}

/// The report: empty when nothing is missing and no fallback was used; else
/// the missing characters, then the characters drawn from a fallback face.
pub open spec fn missing_report_spec(missing: Seq<char>, fallback: Seq<char>) -> Seq<char> {
    (if missing.len() > 0 {
        missing_heading() + char_report_lines(missing, missing.len() as int)
    } else {
        Seq::empty()
    }) + (if fallback.len() > 0 {
        fallback_heading() + char_report_lines(fallback, fallback.len() as int)
    } else {
        Seq::empty()
    })
}

fn push_report_lines(out: &mut Vec<char>, cs: &Vec<char>)
    ensures
        final(out)@ == old(out)@ + char_report_lines(cs@, cs@.len() as int),
{
    let ghost start = out@;
    let mut i: usize = 0;
    while i < cs.len()
        invariant
            i <= cs.len(),
            out@ == start + char_report_lines(cs@, i as int),
        decreases cs.len() - i,
    {
        let c = cs[i];
        push_str(out, "U+");
        let code: u32 = c as u32;
        push_hex_padded(out, code as u64, 4, true);
        out.push(' ');
        out.push(c);
        out.push('\n');
        assert(out@ =~= start + char_report_lines(cs@, i + 1));
        i = i + 1;
    }
}

/// Lists the characters no face could draw and those drawn from a fallback face.
pub fn missing_report(font: &GeneratedFont) -> (r: String)
    ensures
        r@ == missing_report_spec(font.missing@, font.fallback_used@),
{
    let mut s: Vec<char> = Vec::new();
    if font.missing.len() > 0 {
        push_str(&mut s, "缺字（源字体与后备字体都没有，未写入图集）：\n");
        push_report_lines(&mut s, &font.missing);
    }
    let ghost mid = s@;
    if font.fallback_used.len() > 0 {
        push_str(&mut s, "\n以下字符使用了后备字体（常见于标题美工字体缺「+」等符号）：\n");
        push_report_lines(&mut s, &font.fallback_used);
    }
    assert(s@ =~= missing_report_spec(font.missing@, font.fallback_used@));
    chars_to_string(&s)
}

/// Index of the first line feed at or after `i`, or the length.
pub open spec fn line_end(p: Seq<char>, i: int) -> int
    decreases p.len() - i,
{
    if i >= p.len() {
        p.len() as int
    } else if p[i] == '\n' {
        i
    } else {
        line_end(p, i + 1)
    }
}

/// The first line of a text as `str::lines` yields it: up to the first line
/// feed, without a carriage return just before it; `None` for an empty text.
pub open spec fn first_line(p: Seq<char>) -> Option<Seq<char>> {
    if p.len() == 0 {
        None
    } else {
        let e = line_end(p, 0);
        let line = p.take(e);
        if e < p.len() && line.len() > 0 && line.last() == '\r' {
            Some(line.drop_last())
        } else {
            Some(line)
        }
    }
}

/// `s` with each `"` written as `\"`.
pub open spec fn escape_quotes(s: Seq<char>) -> Seq<char>
    decreases s.len(),
{
    if s.len() == 0 {
        Seq::empty()
    } else {
        escape_quotes(s.drop_last()) + if s.last() == '"' {
            seq!['\\', '"']
        } else {
            seq![s.last()]
        }
    }
}

/// The Lua lines that show a label of the font named `stem`.
pub open spec fn lua_snippet_spec(stem: Seq<char>, preview: Seq<char>) -> Seq<char> {
    let line = match first_line(preview) {
        Some(l) => l,
        None => "TEXT"@,
    };
    "-- FntForge 生成，把 "@ + stem + ".fnt 与 PNG 放在同一目录\nlocal lb = cc.Label:createWithBMFont(\"fonts/"@
        + stem + ".fnt\", \""@ + escape_quotes(line) + "\", cc.TEXT_ALIGNMENT_CENTER)\nself:addChild(lb)\n"@
}

/// The first line of `p`, or `None` when `p` is empty.
fn first_line_of(p: &Vec<char>) -> (r: Option<Vec<char>>)
    ensures
        match first_line(p@) {
            Some(l) => r matches Some(v) && v@ == l,
            None => r is None,
        },
{
    if p.len() == 0 {
        return None;
    }
    let mut out: Vec<char> = Vec::new();
    let mut i: usize = 0;
    while i < p.len() && p[i] != '\n'
        invariant
            i <= p@.len(),
            out@ == p@.take(i as int),
            line_end(p@, 0) == line_end(p@, i as int),
        decreases p.len() - i,
    {
        out.push(p[i]);
        assert(p@.take(i + 1) =~= p@.take(i as int).push(p@[i as int]));
        i = i + 1;
    }
    assert(line_end(p@, i as int) == i);
    if i < p.len() && out.len() > 0 && out[out.len() - 1] == '\r' {
        out.pop();
        assert(out@ =~= p@.take(i as int).drop_last());
    }
    Some(out)
}

/// A Lua snippet that shows the first line of `preview` in a label of the font `stem`.
pub fn lua_snippet(stem: &str, preview: &str) -> (r: String)
    ensures
        r@ == lua_snippet_spec(stem@, preview@),
{
    let pv = str_chars(preview);
    let line: Vec<char> = match first_line_of(&pv) {
        Some(l) => l,
        None => str_chars("TEXT"),
    };
    let mut esc: Vec<char> = Vec::new();
    let mut i: usize = 0;
    while i < line.len()
        invariant
            i <= line@.len(),
            esc@ == escape_quotes(line@.take(i as int)),
        decreases line.len() - i,
    {
        let c = line[i];
        assert(line@.take(i + 1).drop_last() =~= line@.take(i as int));
        if c == '"' {
            esc.push('\\');
            esc.push('"');
        } else {
            esc.push(c);
        }
        assert(esc@ =~= escape_quotes(line@.take(i + 1)));
        i = i + 1;
    }
    assert(line@.take(line@.len() as int) =~= line@);
    let mut s: Vec<char> = Vec::new();
    push_str(&mut s, "-- FntForge 生成，把 ");
    push_str(&mut s, stem);
    push_str(&mut s, ".fnt 与 PNG 放在同一目录\nlocal lb = cc.Label:createWithBMFont(\"fonts/");
    push_str(&mut s, stem);
    push_str(&mut s, ".fnt\", \"");
    push_chars(&mut s, &esc);
    push_str(&mut s, "\", cc.TEXT_ALIGNMENT_CENTER)\nself:addChild(lb)\n");
    assert(s@ =~= lua_snippet_spec(stem@, preview@));
    chars_to_string(&s)
}


/// Law: the missing-glyph report is empty exactly when no character is missing and
/// no fallback face was used.
pub proof fn lemma_missing_report_empty(missing: Seq<char>, fallback: Seq<char>)
    ensures
        missing_report_spec(missing, fallback).len() == 0 <==> (missing.len() == 0 && fallback.len() == 0),
{
    reveal_strlit("缺字（源字体与后备字体都没有，未写入图集）：\n");
    reveal_strlit("\n以下字符使用了后备字体（常见于标题美工字体缺「+」等符号）：\n");
    assert(missing_heading().len() > 0);
    assert(fallback_heading().len() > 0);
}

} // verus!
