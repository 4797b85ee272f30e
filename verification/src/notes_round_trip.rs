//! Plain text survives the trip through note HTML: `text_to_html` followed
//! by `strip_tags` gives the text back, for text in the shape the two
//! mappings agree on.
use vstd::prelude::*;
use crate::notes::{
    blank_at, block_html, blocks, break_weight, concat, decode_entity, ent_len, escape_html_spec,
    find_blank_line, first_index, lemma_find_blank_line, lemma_first_index, lemma_first_index_at,
    lines, newlines, normalize_newlines, scan, split_on, split_paragraphs, tag_word, with_break,
};
use crate::strs::{
    has_text, lemma_trim_empty_iff_blank, in_class, is_ascii_alnum, is_ws, join, lead_len, trail_len, trim, trim_end_class,
    trim_start_class, CharClass,
};

verus! {

proof fn lemma_normalize_identity(s: Seq<char>)
    requires
        !s.contains('\r'),
    ensures
        normalize_newlines(s) == s,
    decreases s.len(),
{
    if s.len() > 0 {
        assert(s[0] != '\r');
        let t = s.drop_first();
        assert(!t.contains('\r')) by {
            if t.contains('\r') {
                let k = choose|k: int| 0 <= k < t.len() && t[k] == '\r';
                assert(s[k + 1] == '\r');
            }
        }
        lemma_normalize_identity(t);
        assert(seq![s[0]] + t =~= s);
    }
}

proof fn lemma_join_front(a: Seq<char>, rest: Seq<Seq<char>>, sep: Seq<char>)
    requires
        rest.len() > 0,
    ensures
        join(seq![a] + rest, sep) == a + sep + join(rest, sep),
    decreases rest.len(),
{
    let all = seq![a] + rest;
    if rest.len() == 1 {
        assert(all.drop_last() =~= seq![a]);
        assert(all.last() == rest[0]);
        assert(join(all.drop_last(), sep) == a);
        assert(join(rest, sep) == rest[0]);
        assert(join(all, sep) == join(all.drop_last(), sep) + sep + all.last());
    } else {
        assert(all.drop_last() =~= seq![a] + rest.drop_last());
        lemma_join_front(a, rest.drop_last(), sep);
        assert(all.last() == rest.last());
        assert(join(all, sep) == join(all.drop_last(), sep) + sep + all.last());
        assert(join(rest, sep) == join(rest.drop_last(), sep) + sep + rest.last());
        assert(a + sep + join(rest.drop_last(), sep) + sep + rest.last() =~= a + sep + (join(
            rest.drop_last(),
            sep,
        ) + sep + rest.last()));
    }
}

proof fn lemma_concat_front(a: Seq<char>, rest: Seq<Seq<char>>)
    ensures
        concat(seq![a] + rest) == a + concat(rest),
    decreases rest.len(),
{
    let all = seq![a] + rest;
    if rest.len() == 0 {
        assert(all =~= seq![a]);
        assert(all.drop_last() =~= Seq::<Seq<char>>::empty());
        assert(concat(all) == concat(all.drop_last()) + all.last());
        assert(concat(Seq::<Seq<char>>::empty()) + a =~= a);
        assert(a + concat(rest) =~= a);
    } else {
        assert(all.drop_last() =~= seq![a] + rest.drop_last());
        lemma_concat_front(a, rest.drop_last());
        assert(all.last() == rest.last());
        assert(concat(all) == concat(all.drop_last()) + all.last());
        assert(concat(rest) == concat(rest.drop_last()) + rest.last());
        assert(a + concat(rest.drop_last()) + rest.last() =~= a + (concat(rest.drop_last())
            + rest.last()));
    }
}

proof fn lemma_split_paragraphs_len(s: Seq<char>)
    ensures
        split_paragraphs(s).len() >= 1,
    decreases s.len(),
{
    lemma_find_blank_line(s);
    match find_blank_line(s) {
        Some(k) => {
            if 0 <= k && k + 2 <= s.len() {
                lemma_split_paragraphs_len(s.skip(k + 2));
            }
        },
        None => {},
    }
}

/// The paragraphs joined by blank lines give the text back.
proof fn lemma_join_split_paragraphs(s: Seq<char>)
    ensures
        join(split_paragraphs(s), "\n\n"@) == s,
    decreases s.len(),
{
    lemma_find_blank_line(s);
    match find_blank_line(s) {
        Some(k) => {
            let rest = s.skip(k + 2);
            lemma_join_split_paragraphs(rest);
            lemma_split_paragraphs_len(rest);
            lemma_join_front(s.take(k), split_paragraphs(rest), "\n\n"@);
            reveal_strlit("\n\n");
            assert(s.take(k) + "\n\n"@ + rest =~= s);
        },
        None => {},
    }
}

proof fn lemma_split_on_len(s: Seq<char>, c: char)
    ensures
        split_on(s, c).len() >= 1,
    decreases s.len(),
{
    lemma_first_index(s, c);
    match first_index(s, c) {
        Some(k) => {
            lemma_split_on_len(s.skip(k + 1), c);
        },
        None => {},
    }
}

/// The pieces split at `c` joined by `c` give the text back.
proof fn lemma_join_split_on(s: Seq<char>, c: char)
    ensures
        join(split_on(s, c), seq![c]) == s,
    decreases s.len(),
{
    lemma_first_index(s, c);
    match first_index(s, c) {
        Some(k) => {
            let rest = s.skip(k + 1);
            lemma_join_split_on(rest, c);
            lemma_split_on_len(rest, c);
            lemma_join_front(s.take(k), split_on(rest, c), seq![c]);
            assert(s.take(k) + seq![c] + rest =~= s);
        },
        None => {},
    }
}

/// The escape of one character.
spec fn esc_char(c: char) -> Seq<char> {
    if c == '&' {
        "&amp;"@
    } else if c == '<' {
        "&lt;"@
    } else if c == '>' {
        "&gt;"@
    } else {
        seq![c]
    }
}

proof fn lemma_escape_concat(a: Seq<char>, b: Seq<char>)
    ensures
        escape_html_spec(a + b) == escape_html_spec(a) + escape_html_spec(b),
    decreases b.len(),
{
    if b.len() == 0 {
        assert(a + b =~= a);
        assert(escape_html_spec(b) =~= Seq::<char>::empty());
    } else {
        assert((a + b).drop_last() =~= a + b.drop_last());
        assert((a + b).last() == b.last());
        lemma_escape_concat(a, b.drop_last());
    }
}

proof fn lemma_escape_front(c: char, rest: Seq<char>)
    ensures
        escape_html_spec(seq![c] + rest) == esc_char(c) + escape_html_spec(rest),
{
    lemma_escape_concat(seq![c], rest);
    let one = seq![c];
    assert(one.drop_last() =~= Seq::<char>::empty());
    assert(escape_html_spec(one.drop_last()) =~= Seq::<char>::empty());
    assert(escape_html_spec(one) =~= esc_char(c));
}

proof fn lemma_scan_push(c: char, y: Seq<char>, out: Seq<char>)
    requires
        c != '<',
        c != '&',
    ensures
        scan(seq![c] + y, out) == scan(y, out.push(c)),
{
    let s = seq![c] + y;
    assert(s[0] == c);
    assert(s.drop_first() =~= y);
}

/// `&` followed by a three-letter name and `;`, or a two-letter one.
proof fn lemma_scan_entity(name: Seq<char>, y: Seq<char>, out: Seq<char>)
    requires
        name == "amp"@ || name == "lt"@ || name == "gt"@,
    ensures
        scan(seq!['&'] + name + seq![';'] + y, out) == scan(y, out + decode_entity(name, true)),
{
    reveal_strlit("amp");
    reveal_strlit("lt");
    reveal_strlit("gt");
    let s = seq!['&'] + name + seq![';'] + y;
    let rest = s.drop_first();
    let n = name.len();
    assert(rest =~= name + seq![';'] + y);
    assert(rest[n as int] == ';');
    assert forall|k: int| 0 <= k < n implies rest[k] == name[k] && is_ascii_alnum(#[trigger] rest[k])
        && rest[k] != ';' by {
        assert(rest[k] == name[k]);
    }
    if n == 3 {
        assert(ent_len(rest, 3) == 3);
        assert(ent_len(rest, 2) == 3);
        assert(ent_len(rest, 1) == 3);
        assert(ent_len(rest, 0) == 3);
    } else {
        assert(ent_len(rest, 2) == 2);
        assert(ent_len(rest, 1) == 2);
        assert(ent_len(rest, 0) == 2);
    }
    assert(rest.take(n as int) =~= name);
    assert(rest.skip(n as int + 1) =~= y);
    assert(s[0] == '&');
}

proof fn lemma_scan_esc_char(c: char, y: Seq<char>, out: Seq<char>)
    ensures
        scan(esc_char(c) + y, out) == scan(y, out.push(c)),
{
    reveal_strlit("&amp;");
    reveal_strlit("&lt;");
    reveal_strlit("&gt;");
    reveal_strlit("amp");
    reveal_strlit("lt");
    reveal_strlit("gt");
    if c == '&' {
        assert(esc_char(c) + y =~= seq!['&'] + "amp"@ + seq![';'] + y);
        lemma_scan_entity("amp"@, y, out);
        assert(out + decode_entity("amp"@, true) =~= out.push(c));
    } else if c == '<' {
        assert(esc_char(c) + y =~= seq!['&'] + "lt"@ + seq![';'] + y);
        lemma_scan_entity("lt"@, y, out);
        assert(out + decode_entity("lt"@, true) =~= out.push(c));
    } else if c == '>' {
        assert(esc_char(c) + y =~= seq!['&'] + "gt"@ + seq![';'] + y);
        lemma_scan_entity("gt"@, y, out);
        assert(out + decode_entity("gt"@, true) =~= out.push(c));
    } else {
        lemma_scan_push(c, y, out);
    }
}

/// Scanning an escaped line gives the line back, whatever follows it.
proof fn lemma_scan_escaped(l: Seq<char>, y: Seq<char>, out: Seq<char>)
    ensures
        scan(escape_html_spec(l) + y, out) == scan(y, out + l),
    decreases l.len(),
{
    if l.len() == 0 {
        assert(escape_html_spec(l) =~= Seq::<char>::empty());
        assert(escape_html_spec(l) + y =~= y);
        assert(out + l =~= out);
    } else {
        let c = l[0];
        let t = l.drop_first();
        assert(seq![c] + t =~= l);
        lemma_escape_front(c, t);
        assert(escape_html_spec(l) + y =~= esc_char(c) + (escape_html_spec(t) + y));
        lemma_scan_esc_char(c, escape_html_spec(t) + y, out);
        lemma_scan_escaped(t, y, out.push(c));
        assert(out.push(c) + t =~= out + l);
    }
}

/// `with_break` on text ending in an ordinary character appends the break.
proof fn lemma_with_break_after_text(x: Seq<char>, w: nat)
    requires
        x.len() > 0,
        x.last() != ' ',
        x.last() != '\t',
        x.last() != '\n',
        1 <= w <= 2,
    ensures
        with_break(x, w) == x + newlines(w),
{
    assert(!in_class(x.last(), CharClass::SpaceOrTab));
    assert(trail_len(x, CharClass::SpaceOrTab) == 0);
    assert(x.take(x.len() as int) =~= x);
    assert(trim_end_class(x, CharClass::SpaceOrTab) == x);
    assert(trail_len(x, CharClass::Newline) == 0);
}

/// `with_break` after a paragraph break adds nothing more.
proof fn lemma_with_break_after_paragraph(o: Seq<char>)
    requires
        o.len() >= 2,
        o[o.len() - 1] == '\n',
        o[o.len() - 2] == '\n',
    ensures
        with_break(o, 2) == o,
{
    assert(!in_class(o.last(), CharClass::SpaceOrTab));
    assert(trail_len(o, CharClass::SpaceOrTab) == 0);
    assert(o.take(o.len() as int) =~= o);
    assert(trim_end_class(o, CharClass::SpaceOrTab) == o);
    let d = o.drop_last();
    assert(d.last() == '\n');
    assert(trail_len(d, CharClass::Newline) >= 1);
    assert(trail_len(o, CharClass::Newline) >= 2);
}

proof fn lemma_tag_word_p()
    ensures
        break_weight("p"@) == Some(2nat),
        break_weight("/p"@) == Some(2nat),
        break_weight("br"@) == Some(1nat),
{
    reveal_strlit("p");
    reveal_strlit("/p");
    reveal_strlit("br");
    reveal_strlit("div");
    reveal_strlit("li");
    let p = "p"@;
    let sp = "/p"@;
    let br = "br"@;
    // "p"
    assert(trail_len(p, CharClass::Whitespace) == 0);
    assert(p.take(p.len() as int) =~= p);
    assert(lead_len(p, CharClass::Whitespace) == 0);
    assert(p.skip(0) =~= p);
    assert(trim(p) == p);
    assert(lead_len(p, CharClass::Slash) == 0);
    assert(trim_start_class(p, CharClass::Slash) == p);
    assert(p.drop_first() =~= Seq::<char>::empty());
    assert(p[0] == 'p');
    assert(in_class(p[0], CharClass::AsciiAlnum));
    assert(lead_len(p.drop_first(), CharClass::AsciiAlnum) == 0);
    assert(lead_len(p, CharClass::AsciiAlnum) == 1);
    assert(p.take(1).map_values(|c: char| crate::notes::ascii_lower_char(c)) =~= p);
    assert(tag_word(p) == p);
    // "/p"
    assert(trail_len(sp, CharClass::Whitespace) == 0);
    assert(sp.take(sp.len() as int) =~= sp);
    assert(lead_len(sp, CharClass::Whitespace) == 0);
    assert(sp.skip(0) =~= sp);
    assert(trim(sp) == sp);
    assert(sp.drop_first() =~= p);
    assert(lead_len(sp, CharClass::Slash) == 1);
    assert(sp.skip(1) =~= p);
    assert(trim_start_class(sp, CharClass::Slash) == p);
    assert(tag_word(sp) == p);
    // "br"
    assert(trail_len(br, CharClass::Whitespace) == 0);
    assert(br.take(br.len() as int) =~= br);
    assert(lead_len(br, CharClass::Whitespace) == 0);
    assert(br.skip(0) =~= br);
    assert(trim(br) == br);
    assert(lead_len(br, CharClass::Slash) == 0);
    assert(trim_start_class(br, CharClass::Slash) == br);
    let b2 = br.drop_first();
    assert(b2.drop_first() =~= Seq::<char>::empty());
    assert(br[0] == 'b' && br[1] == 'r');
    assert(b2[0] == 'r');
    assert(in_class(b2[0], CharClass::AsciiAlnum));
    assert(in_class(br[0], CharClass::AsciiAlnum));
    assert(lead_len(b2.drop_first(), CharClass::AsciiAlnum) == 0);
    assert(lead_len(b2, CharClass::AsciiAlnum) == 1);
    assert(lead_len(br, CharClass::AsciiAlnum) == 2);
    assert(br.take(2).map_values(|c: char| crate::notes::ascii_lower_char(c)) =~= br);
    assert(tag_word(br) == br);
    assert(br != "p"@);
    assert(br != "div"@);
}

/// A tag is consumed whole and applies its break, whatever follows it.
proof fn lemma_scan_tag(name: Seq<char>, w: nat, y: Seq<char>, out: Seq<char>)
    requires
        name == "p"@ || name == "/p"@ || name == "br"@,
        break_weight(name) == Some(w),
    ensures
        scan(seq!['<'] + name + seq!['>'] + y, out) == scan(y, with_break(out, w)),
{
    reveal_strlit("p");
    reveal_strlit("/p");
    reveal_strlit("br");
    let s = seq!['<'] + name + seq!['>'] + y;
    let rest = s.drop_first();
    let j = name.len() as int;
    assert(rest =~= name + seq!['>'] + y);
    assert(rest[j] == '>');
    assert forall|m: int| 0 <= m < j implies rest[m] != '>' by {
        assert(rest[m] == name[m]);
    }
    lemma_first_index_at(rest, '>', j);
    assert(rest.take(j) =~= name);
    assert(rest.skip(j + 1) =~= y);
    assert(s[0] == '<');
}

/// A line as the paragraph mapping emits it: non-empty, not ending in a
/// blank, a line break or a carriage return.
spec fn line_ok(l: Seq<char>) -> bool {
    &&& l.len() > 0
    &&& l.last() != ' '
    &&& l.last() != '\t'
    &&& l.last() != '\n'
    &&& l.last() != '\r'
}

/// A block whose lines all satisfy `line_ok`.
spec fn block_text_ok(p: Seq<char>) -> bool {
    &&& p.len() > 0
    &&& p[0] != '\n'
    &&& p.last() != ' '
    &&& p.last() != '\t'
    &&& p.last() != '\n'
    &&& !p.contains('\r')
    &&& forall|m: int| 0 <= m && m + 1 < p.len() ==> !#[trigger] blank_at(p, m)
    &&& forall|i: int| 0 < i < p.len() && #[trigger] p[i] == '\n' ==> p[i - 1] != ' ' && p[i - 1] != '\t'
}

proof fn lemma_lines_ok(p: Seq<char>)
    requires
        block_text_ok(p),
    ensures
        forall|k: int| 0 <= k < split_on(p, '\n').len() ==> line_ok(#[trigger] split_on(p, '\n')[k]),
    decreases p.len(),
{
    lemma_first_index(p, '\n');
    match first_index(p, '\n') {
        Some(k) => {
            let a = p.take(k);
            let r = p.skip(k + 1);
            assert(k > 0);
            assert(k < p.len() - 1) by {
                if k == p.len() - 1 {
                    assert(p.last() == '\n');
                }
            }
            assert(a.last() == p[k - 1]);
            assert(p[k] == '\n');
            assert(a.last() != '\r') by {
                if a.last() == '\r' {
                    assert(p.contains('\r'));
                }
            }
            assert(line_ok(a));
            assert(r[0] == p[k + 1]);
            assert(r[0] != '\n') by {
                if r[0] == '\n' {
                    assert(blank_at(p, k));
                }
            }
            assert(r.last() == p.last());
            assert(!r.contains('\r')) by {
                if r.contains('\r') {
                    let j = choose|j: int| 0 <= j < r.len() && r[j] == '\r';
                    assert(p[j + k + 1] == '\r');
                }
            }
            assert forall|m: int| 0 <= m && m + 1 < r.len() implies !#[trigger] blank_at(r, m) by {
                assert(r[m] == p[m + k + 1]);
                assert(r[m + 1] == p[m + k + 2]);
                assert(!blank_at(p, m + k + 1));
            }
            assert forall|i: int| 0 < i < r.len() && #[trigger] r[i] == '\n' implies r[i - 1] != ' '
                && r[i - 1] != '\t' by {
                assert(r[i] == p[i + k + 1]);
                assert(r[i - 1] == p[i + k]);
            }
            lemma_lines_ok(r);
            let parts = split_on(p, '\n');
            assert(parts == seq![a] + split_on(r, '\n'));
            assert forall|j: int| 0 <= j < parts.len() implies line_ok(#[trigger] parts[j]) by {
                if j > 0 {
                    assert(parts[j] == split_on(r, '\n')[j - 1]);
                }
            }
        },
        None => {
            assert(p.last() != '\r') by {
                if p.last() == '\r' {
                    assert(p[p.len() - 1] == '\r');
                }
            }
        },
    }
}

proof fn lemma_lines_are_split(p: Seq<char>)
    requires
        block_text_ok(p),
    ensures
        lines(p) == split_on(p, '\n'),
{
    lemma_lines_ok(p);
    lemma_split_on_len(p, '\n');
    let parts = split_on(p, '\n');
    assert(line_ok(parts[parts.len() - 1]));
    assert(parts.last().len() > 0);
    assert(lines(p) =~= parts);
}

/// The lines of a block, escaped and joined by `<br>`, then `</p>`: the lines
/// come back joined by line breaks, followed by a paragraph break.
proof fn lemma_scan_lines(ls: Seq<Seq<char>>, y: Seq<char>, o: Seq<char>)
    requires
        ls.len() >= 1,
        forall|k: int| 0 <= k < ls.len() ==> line_ok(#[trigger] ls[k]),
    ensures
        scan(join(ls.map_values(|l: Seq<char>| escape_html_spec(l)), "<br>"@) + "</p>"@ + y, o)
            == scan(y, o + join(ls, seq!['\n']) + "\n\n"@),
    decreases ls.len(),
{
    reveal_strlit("<br>");
    reveal_strlit("</p>");
    reveal_strlit("\n\n");
    reveal_strlit("br");
    reveal_strlit("/p");
    lemma_tag_word_p();
    let l = ls[0];
    let rest = ls.drop_first();
    assert(line_ok(l));
    assert(ls =~= seq![l] + rest);
    let el = escape_html_spec(l);
    let mapped = ls.map_values(|l: Seq<char>| escape_html_spec(l));
    if rest.len() == 0 {
        assert(mapped =~= seq![el]);
        assert(join(mapped, "<br>"@) == el);
        assert(join(ls, seq!['\n']) == l);
        assert(el + "</p>"@ + y =~= el + ("</p>"@ + y));
        lemma_scan_escaped(l, "</p>"@ + y, o);
        assert("</p>"@ + y =~= seq!['<'] + "/p"@ + seq!['>'] + y);
        lemma_scan_tag("/p"@, 2, y, o + l);
        lemma_with_break_after_text(o + l, 2);
        assert(newlines(2) =~= "\n\n"@);
    } else {
        let mrest = rest.map_values(|l: Seq<char>| escape_html_spec(l));
        assert(mapped =~= seq![el] + mrest);
        lemma_join_front(el, mrest, "<br>"@);
        lemma_join_front(l, rest, seq!['\n']);
        let z = join(mrest, "<br>"@) + "</p>"@ + y;
        assert(join(mapped, "<br>"@) + "</p>"@ + y =~= el + ("<br>"@ + z));
        lemma_scan_escaped(l, "<br>"@ + z, o);
        assert("<br>"@ + z =~= seq!['<'] + "br"@ + seq!['>'] + z);
        lemma_scan_tag("br"@, 1, z, o + l);
        lemma_with_break_after_text(o + l, 1);
        assert(newlines(1) =~= seq!['\n']);
        assert forall|k: int| 0 <= k < rest.len() implies line_ok(#[trigger] rest[k]) by {
            assert(rest[k] == ls[k + 1]);
        }
        lemma_scan_lines(rest, y, o + l + seq!['\n']);
        assert(o + l + seq!['\n'] + join(rest, seq!['\n']) + "\n\n"@ =~= o + (l + seq!['\n']
            + join(rest, seq!['\n'])) + "\n\n"@);
    }
}

/// Where the text so far is empty or ends with a paragraph break.
spec fn at_paragraph_start(o: Seq<char>) -> bool {
    o.len() == 0 || (o.len() >= 2 && o[o.len() - 1] == '\n' && o[o.len() - 2] == '\n')
}

/// One paragraph's HTML scans to the paragraph and a paragraph break.
proof fn lemma_scan_block(p: Seq<char>, y: Seq<char>, o: Seq<char>)
    requires
        block_text_ok(p),
        at_paragraph_start(o),
    ensures
        scan(block_html(p) + y, o) == scan(y, o + p + "\n\n"@),
{
    reveal_strlit("<p>");
    reveal_strlit("p");
    reveal_strlit("<br>");
    reveal_strlit("</p>");
    lemma_tag_word_p();
    lemma_lines_are_split(p);
    lemma_lines_ok(p);
    lemma_split_on_len(p, '\n');
    lemma_join_split_on(p, '\n');
    let ls = split_on(p, '\n');
    let j = join(ls.map_values(|l: Seq<char>| escape_html_spec(l)), "<br>"@);
    assert(block_html(p) + y =~= seq!['<'] + "p"@ + seq!['>'] + (j + "</p>"@ + y));
    lemma_scan_tag("p"@, 2, j + "</p>"@ + y, o);
    if o.len() > 0 {
        lemma_with_break_after_paragraph(o);
    }
    assert(with_break(o, 2) == o);
    lemma_scan_lines(ls, y, o);
}

/// Consecutive paragraphs scan to themselves joined by paragraph breaks.
proof fn lemma_scan_blocks(bs: Seq<Seq<char>>, o: Seq<char>)
    requires
        bs.len() >= 1,
        forall|k: int| 0 <= k < bs.len() ==> block_text_ok(#[trigger] bs[k]),
        at_paragraph_start(o),
    ensures
        scan(concat(bs.map_values(|b: Seq<char>| block_html(b))), o) == o + join(bs, "\n\n"@)
            + "\n\n"@,
    decreases bs.len(),
{
    reveal_strlit("\n\n");
    let b = bs[0];
    let rest = bs.drop_first();
    assert(bs =~= seq![b] + rest);
    assert(block_text_ok(b));
    let hb = block_html(b);
    let mrest = rest.map_values(|b: Seq<char>| block_html(b));
    assert(bs.map_values(|b: Seq<char>| block_html(b)) =~= seq![hb] + mrest);
    lemma_concat_front(hb, mrest);
    lemma_scan_block(b, concat(mrest), o);
    let o2 = o + b + "\n\n"@;
    if rest.len() == 0 {
        assert(concat(mrest) =~= Seq::<char>::empty());
        assert(join(bs, "\n\n"@) == b);
    } else {
        assert(o2[o2.len() - 1] == '\n' && o2[o2.len() - 2] == '\n');
        assert forall|k: int| 0 <= k < rest.len() implies block_text_ok(#[trigger] rest[k]) by {
            assert(rest[k] == bs[k + 1]);
        }
        lemma_scan_blocks(rest, o2);
        lemma_join_front(b, rest, "\n\n"@);
        assert(o2 + join(rest, "\n\n"@) + "\n\n"@ =~= o + (b + "\n\n"@ + join(rest, "\n\n"@))
            + "\n\n"@);
    }
}

spec fn no_blank_line(p: Seq<char>) -> bool {
    forall|m: int| 0 <= m && m + 1 < p.len() ==> !#[trigger] blank_at(p, m)
}

/// Each paragraph of a text holds no blank line, and no carriage return
/// where the text holds none.
proof fn lemma_paragraph_pieces(s: Seq<char>)
    ensures
        forall|k: int|
            0 <= k < split_paragraphs(s).len() ==> no_blank_line(#[trigger] split_paragraphs(s)[k]),
        !s.contains('\r') ==> forall|k: int|
            0 <= k < split_paragraphs(s).len() ==> !(#[trigger] split_paragraphs(s)[k]).contains(
                '\r',
            ),
    decreases s.len(),
{
    lemma_find_blank_line(s);
    match find_blank_line(s) {
        Some(k) => {
            let a = s.take(k);
            let r = s.skip(k + 2);
            lemma_paragraph_pieces(r);
            let parts = split_paragraphs(s);
            assert(parts == seq![a] + split_paragraphs(r));
            assert forall|m: int| 0 <= m && m + 1 < a.len() implies !#[trigger] blank_at(a, m) by {
                assert(a[m] == s[m] && a[m + 1] == s[m + 1]);
                assert(!blank_at(s, m));
            }
            assert(no_blank_line(a));
            assert forall|j: int| 0 <= j < parts.len() implies no_blank_line(#[trigger] parts[j]) by {
                if j > 0 {
                    assert(parts[j] == split_paragraphs(r)[j - 1]);
                }
            }
            if !s.contains('\r') {
                assert(!r.contains('\r')) by {
                    if r.contains('\r') {
                        let i = choose|i: int| 0 <= i < r.len() && r[i] == '\r';
                        assert(s[i + k + 2] == '\r');
                    }
                }
                assert(!a.contains('\r')) by {
                    if a.contains('\r') {
                        let i = choose|i: int| 0 <= i < a.len() && a[i] == '\r';
                        assert(s[i] == '\r');
                    }
                }
                assert forall|j: int| 0 <= j < parts.len() implies !(#[trigger] parts[j]).contains(
                    '\r',
                ) by {
                    if j > 0 {
                        assert(parts[j] == split_paragraphs(r)[j - 1]);
                    }
                }
            }
        },
        None => {},
    }
}

/// A paragraph as the mapping keeps it: non-empty, starting and ending with
/// a non-whitespace character, and with no space or tab right before a line
/// break.
pub open spec fn paragraph_ok(p: Seq<char>) -> bool {
    &&& p.len() > 0
    &&& !is_ws(p[0])
    &&& !is_ws(p.last())
    &&& forall|i: int| 0 < i < p.len() && #[trigger] p[i] == '\n' ==> p[i - 1] != ' ' && p[i - 1] != '\t'
}

/// Text in the shape the two mappings agree on: empty, or free of carriage
/// returns with every blank-line-separated paragraph `paragraph_ok`.
pub open spec fn round_trip_text(t: Seq<char>) -> bool {
    t.len() == 0 || {
        &&& !t.contains('\r')
        &&& forall|k: int|
            0 <= k < split_paragraphs(t).len() ==> paragraph_ok(#[trigger] split_paragraphs(t)[k])
    }
}

proof fn lemma_trim_identity(p: Seq<char>)
    requires
        p.len() > 0,
        !is_ws(p[0]),
        !is_ws(p.last()),
    ensures
        trim(p) == p,
{
    assert(trail_len(p, CharClass::Whitespace) == 0);
    assert(p.take(p.len() as int) =~= p);
    assert(lead_len(p, CharClass::Whitespace) == 0);
    assert(p.skip(0) =~= p);
}

proof fn lemma_map_trim_filter(ps: Seq<Seq<char>>)
    requires
        forall|k: int| 0 <= k < ps.len() ==> paragraph_ok(#[trigger] ps[k]),
    ensures
        ps.map_values(|b: Seq<char>| trim(b)).filter(|b: Seq<char>| b.len() > 0) == ps,
    decreases ps.len(),
{
    reveal(Seq::filter);
    let m = ps.map_values(|b: Seq<char>| trim(b));
    if ps.len() == 0 {
        assert(m =~= ps);
    } else {
        let d = ps.drop_last();
        assert forall|k: int| 0 <= k < d.len() implies paragraph_ok(#[trigger] d[k]) by {
            assert(d[k] == ps[k]);
        }
        lemma_map_trim_filter(d);
        assert(m.drop_last() =~= d.map_values(|b: Seq<char>| trim(b)));
        assert(paragraph_ok(ps[ps.len() - 1]));
        lemma_trim_identity(ps.last());
        assert(m.last() == ps.last());
        assert(ps =~= d.push(ps.last()));
    }
}

proof fn lemma_join_ends(parts: Seq<Seq<char>>, sep: Seq<char>)
    requires
        parts.len() >= 1,
        parts[0].len() > 0,
        parts.last().len() > 0,
    ensures
        join(parts, sep).len() > 0,
        join(parts, sep)[0] == parts[0][0],
        join(parts, sep).last() == parts.last().last(),
    decreases parts.len(),
{
    if parts.len() > 1 {
        let d = parts.drop_last();
        if d.len() > 1 {
            assert(d[0] == parts[0]);
            assert(d.last().len() > 0 || d.last().len() == 0);
        }
        lemma_join_first(d, sep);
        assert(d[0] == parts[0]);
    }
}

proof fn lemma_join_first(parts: Seq<Seq<char>>, sep: Seq<char>)
    requires
        parts.len() >= 1,
        parts[0].len() > 0,
    ensures
        join(parts, sep).len() > 0,
        join(parts, sep)[0] == parts[0][0],
    decreases parts.len(),
{
    if parts.len() > 1 {
        let d = parts.drop_last();
        assert(d[0] == parts[0]);
        lemma_join_first(d, sep);
    }
}

proof fn lemma_normalize_has_text(s: Seq<char>)
    ensures
        has_text(normalize_newlines(s)) <==> has_text(s),
    decreases s.len(),
{
    if s.len() > 0 {
        let n = normalize_newlines(s);
        if s[0] == '\r' && s.len() >= 2 && s[1] == '\n' {
            let r = s.skip(2);
            lemma_normalize_has_text(r);
            let nr = normalize_newlines(r);
            assert(n == seq!['\n'] + nr);
            if has_text(nr) {
                let i = choose|i: int| 0 <= i < nr.len() && !is_ws(#[trigger] nr[i]);
                assert(n[i + 1] == nr[i]);
            }
            if has_text(n) {
                let i = choose|i: int| 0 <= i < n.len() && !is_ws(#[trigger] n[i]);
                assert(nr[i - 1] == n[i]);
            }
            if has_text(r) {
                let i = choose|i: int| 0 <= i < r.len() && !is_ws(#[trigger] r[i]);
                assert(s[i + 2] == r[i]);
            }
            if has_text(s) {
                let i = choose|i: int| 0 <= i < s.len() && !is_ws(#[trigger] s[i]);
                assert(r[i - 2] == s[i]);
            }
        } else {
            let r = s.drop_first();
            lemma_normalize_has_text(r);
            let nr = normalize_newlines(r);
            let c = if s[0] == '\r' {
                '\n'
            } else {
                s[0]
            };
            assert(n == seq![c] + nr);
            if has_text(nr) {
                let i = choose|i: int| 0 <= i < nr.len() && !is_ws(#[trigger] nr[i]);
                assert(n[i + 1] == nr[i]);
            }
            if has_text(n) {
                let i = choose|i: int| 0 <= i < n.len() && !is_ws(#[trigger] n[i]);
                if i > 0 {
                    assert(nr[i - 1] == n[i]);
                } else {
                    assert(s[0] == c);
                }
            }
            if has_text(r) {
                let i = choose|i: int| 0 <= i < r.len() && !is_ws(#[trigger] r[i]);
                assert(s[i + 1] == r[i]);
            }
            if has_text(s) {
                let i = choose|i: int| 0 <= i < s.len() && !is_ws(#[trigger] s[i]);
                if i > 0 {
                    assert(r[i - 1] == s[i]);
                } else {
                    assert(n[0] == s[0]);
                }
            }
        }
    }
}

proof fn lemma_join_blank_has_text(parts: Seq<Seq<char>>)
    ensures
        has_text(join(parts, "\n\n"@)) <==> exists|k: int|
            0 <= k < parts.len() && has_text(#[trigger] parts[k]),
    decreases parts.len(),
{
    reveal_strlit("\n\n");
    if parts.len() == 1 {
        if has_text(parts[0]) {
            assert(has_text(parts[0 as int]));
        }
    } else if parts.len() > 1 {
        let front = parts.drop_last();
        lemma_join_blank_has_text(front);
        let a = join(front, "\n\n"@);
        let j = a + "\n\n"@ + parts.last();
        assert(join(parts, "\n\n"@) == j);
        if has_text(j) {
            let i = choose|i: int| 0 <= i < j.len() && !is_ws(#[trigger] j[i]);
            if i < a.len() {
                assert(a[i] == j[i]);
                let k = choose|k: int| 0 <= k < front.len() && has_text(#[trigger] front[k]);
                assert(front[k] == parts[k]);
            } else if i < a.len() + 2 {
                assert(j[i] == '\n');
            } else {
                assert(parts.last()[i - a.len() - 2] == j[i]);
                assert(has_text(parts[parts.len() - 1]));
            }
        }
        if exists|k: int| 0 <= k < parts.len() && has_text(#[trigger] parts[k]) {
            let k = choose|k: int| 0 <= k < parts.len() && has_text(#[trigger] parts[k]);
            let p = parts[k];
            let i = choose|i: int| 0 <= i < p.len() && !is_ws(#[trigger] p[i]);
            if k < parts.len() - 1 {
                assert(front[k] == p);
                assert(has_text(front[k]));
                let m = choose|m: int| 0 <= m < a.len() && !is_ws(#[trigger] a[m]);
                assert(j[m] == a[m]);
            } else {
                assert(j[a.len() + 2 + i] == p[i]);
            }
        }
    }
}

/// A text has a non-blank paragraph exactly when it is not blank.
pub(crate) proof fn lemma_blocks_empty_iff_blank(text: Seq<char>)
    ensures
        blocks(text).len() == 0 <==> trim(text).len() == 0,
{
    broadcast use vstd::seq_lib::group_filter_ensures;

    let n = normalize_newlines(text);
    let ps = split_paragraphs(n);
    let trimmed = ps.map_values(|b: Seq<char>| trim(b));
    let pred = |b: Seq<char>| b.len() > 0;
    lemma_trim_empty_iff_blank(text);
    lemma_normalize_has_text(text);
    lemma_join_split_paragraphs(n);
    lemma_join_blank_has_text(ps);
    if has_text(text) {
        let k = choose|k: int| 0 <= k < ps.len() && has_text(#[trigger] ps[k]);
        lemma_trim_empty_iff_blank(ps[k]);
        assert(pred(trimmed[k]));
        trimmed.lemma_filter_contains(pred, k);
        assert(blocks(text).len() > 0);
    }
    if blocks(text).len() > 0 {
        let b = blocks(text)[0];
        assert(trimmed.filter(pred).contains(b));
        trimmed.lemma_filter_contains_rev(pred, b);
        let m = choose|m: int| 0 <= m < trimmed.len() && trimmed[m] == b;
        trimmed.lemma_filter_pred(pred, 0);
        lemma_trim_empty_iff_blank(ps[m]);
        assert(has_text(ps[m]));
    }
}

/// Plain text survives the trip through note HTML: for text in the shape
/// the two mappings agree on (see `round_trip_text`), stripping the tags of
/// `text_to_html`'s output gives the text back.
pub proof fn law_plain_text_round_trips(t: Seq<char>)
    requires
        round_trip_text(t),
    ensures
        crate::notes::strip_tags_spec(crate::notes::text_to_html_spec(t)) == t,
{
    reveal_strlit("\n\n");
    if t.len() == 0 {
        assert(normalize_newlines(t) =~= t);
        lemma_find_blank_line(t);
        assert(split_paragraphs(t) == seq![t]);
        reveal(Seq::filter);
        let m = split_paragraphs(t).map_values(|b: Seq<char>| trim(b));
        assert(m.len() == 1);
        assert(trail_len(t, CharClass::Whitespace) == 0);
        assert(t.take(0) =~= t);
        assert(lead_len(t, CharClass::Whitespace) == 0);
        assert(t.skip(0) =~= t);
        assert(m[0] == t);
        assert(m.drop_last() =~= Seq::<Seq<char>>::empty());
        assert(normalize_newlines(t) == t);
        assert(blocks(t) == m.filter(|b: Seq<char>| b.len() > 0));
        assert(m.drop_last().filter(|b: Seq<char>| b.len() > 0) =~= Seq::<Seq<char>>::empty());
        assert(m.last().len() == 0);
        assert(blocks(t) =~= Seq::<Seq<char>>::empty());
        let h = crate::notes::text_to_html_spec(t);
        assert(h =~= Seq::<char>::empty());
        assert(scan(h, Seq::empty()) =~= Seq::<char>::empty());
        assert(trail_len(h, CharClass::BreakOrBlank) == 0);
        assert(lead_len(h, CharClass::BreakOrBlank) == 0);
        assert(crate::notes::strip_tags_spec(h) =~= t);
    } else {
        let ps = split_paragraphs(t);
        lemma_normalize_identity(t);
        lemma_map_trim_filter(ps);
        assert(blocks(t) == ps);
        lemma_paragraph_pieces(t);
        lemma_split_paragraphs_len(t);
        assert forall|k: int| 0 <= k < ps.len() implies block_text_ok(#[trigger] ps[k]) by {
            let p = ps[k];
            assert(paragraph_ok(p));
            assert(no_blank_line(p));
            assert(!p.contains('\r'));
        }
        lemma_scan_blocks(ps, Seq::empty());
        lemma_join_split_paragraphs(t);
        let out = scan(crate::notes::text_to_html_spec(t), Seq::empty());
        assert(Seq::<char>::empty() + join(ps, "\n\n"@) =~= t);
        assert(out == t + "\n\n"@);
        assert(paragraph_ok(ps[0]));
        assert(paragraph_ok(ps[ps.len() - 1]));
        lemma_join_ends(ps, "\n\n"@);
        assert(!in_class(t[0], CharClass::BreakOrBlank));
        assert(!in_class(t.last(), CharClass::BreakOrBlank));
        assert forall|j: int| out.len() - 2 <= j < out.len() implies in_class(
            #[trigger] out[j],
            CharClass::BreakOrBlank,
        ) by {
            assert(out[j] == '\n');
        }
        assert(out[out.len() - 3] == t.last());
        crate::strs::lemma_trail_len_unique(out, CharClass::BreakOrBlank, 2);
        let e = trim_end_class(out, CharClass::BreakOrBlank);
        assert(e =~= t);
        crate::strs::lemma_lead_len_unique(e, CharClass::BreakOrBlank, 0);
        assert(e.skip(0) =~= e);
    }
}

} // verus!
