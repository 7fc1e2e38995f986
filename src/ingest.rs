//! Turning chapter markup into document elements: tags and the contents of
//! script and style blocks are dropped, a few entities are decoded, and each
//! non-empty line becomes a text or heading element.
use vstd::prelude::*;

use crate::document::DocumentElement;
use crate::text::{
    chars_of, contains, has_infix, has_prefix, is_white_space, push_all, replace_all, replaced,
    slice_chars, starts_with, string_from, trim_range, trimmed, white_space,
};

verus! {

/// The lowercase form of a string.
pub uninterp spec fn lower_of(s: Seq<char>) -> Seq<char>;

/// Relies on `str::to_lowercase`: the result depends on the characters alone.
#[verifier::external_body]
fn lowercase(s: &str) -> (r: String)
    ensures
        r@ == lower_of(s@),
{
    s.to_lowercase()
}

/// Whether a character is uppercase.
pub uninterp spec fn upper_char(c: char) -> bool;

/// Relies on `char::is_uppercase`: the Unicode `Uppercase` property of the character.
#[verifier::external_body]
fn char_is_uppercase(c: char) -> (r: bool)
    ensures
        r == upper_char(c),
{
    c.is_uppercase()
}

/// Whether a character is alphabetic.
pub uninterp spec fn alpha_char(c: char) -> bool;

/// Relies on `char::is_alphabetic`: the Unicode `Alphabetic` property of the character.
#[verifier::external_body]
fn char_is_alphabetic(c: char) -> (r: bool)
    ensures
        r == alpha_char(c),
{
    c.is_alphabetic()
}

/// Whether script/style skipping is on after a tag, given its lowercase text:
/// an opening script or style tag turns it on, a closing one turns it off,
/// any other tag leaves it.
pub open spec fn skip_after(lowered_tag: Seq<char>, skipping: bool) -> bool {
    if has_infix(lowered_tag, "<script"@) || has_infix(lowered_tag, "<style"@) {
        true
    } else if has_infix(lowered_tag, "</script"@) || has_infix(lowered_tag, "</style"@) {
        false
    } else {
        skipping
    }
}

/// The skipping state after a tag whose lowercase text is `lowered_tag`.
pub fn tag_effect(lowered_tag: &str, skipping: bool) -> (r: bool)
    ensures
        r == skip_after(lowered_tag@, skipping),
{
    let t = chars_of(lowered_tag);
    if contains(&t, &chars_of("<script")) || contains(&t, &chars_of("<style")) {
        true
    } else if contains(&t, &chars_of("</script")) || contains(&t, &chars_of("</style")) {
        false
    } else {
        skipping
    }
}

/// The text of `s` from `i` on, with tags removed. `tag` is the part of a tag
/// read so far, if a tag is open; `skipping` is on inside script and style.
pub open spec fn stripped_from(s: Seq<char>, i: int, skipping: bool, tag: Option<Seq<char>>) -> Seq<
    char,
>
    decreases s.len() - i,
{
    if i < 0 || i >= s.len() {
        Seq::empty()
    } else {
        match tag {
            Some(b) => {
                let b2 = b.push(s[i]);
                if s[i] == '>' {
                    stripped_from(s, i + 1, skip_after(lower_of(b2), skipping), None)
                } else {
                    stripped_from(s, i + 1, skipping, Some(b2))
                }
            },
            None => if s[i] == '<' {
                stripped_from(s, i + 1, skipping, Some(seq!['<']))
            } else if skipping {
                stripped_from(s, i + 1, skipping, None)
            } else {
                seq![s[i]] + stripped_from(s, i + 1, skipping, None)
            },
        }
    }
}

/// Decodes the entities for space, ampersand, angle brackets and quotes,
/// one after the other.
pub open spec fn decoded(s: Seq<char>) -> Seq<char> {
    replaced(
        replaced(
            replaced(
                replaced(replaced(replaced(s, "&nbsp;"@, " "@), "&amp;"@, "&"@), "&lt;"@, "<"@),
                "&gt;"@,
                ">"@,
            ),
            "&quot;"@,
            "\u{22}"@,
        ),
        "&apos;"@,
        "\u{27}"@,
    )
}

/// The plain text of a piece of markup.
pub open spec fn plain_text_of(html: Seq<char>) -> Seq<char> {
    decoded(stripped_from(html, 0, false, None))
}

/// Replaces every occurrence of `pat` in `s` by `rep`.
fn replace_str(s: &Vec<char>, pat: &str, rep: &str) -> (r: Vec<char>)
    requires
        pat@.len() > 0,
    ensures
        r@ == replaced(s@, pat@, rep@),
{
    let p = chars_of(pat);
    let q = chars_of(rep);
    replace_all(s, &p, &q)
}

/// Removes tags, and script and style contents, from markup, then decodes entities.
pub fn strip_html_tags(html: &str) -> (r: String)
    ensures
        r@ == plain_text_of(html@),
{
    let s = chars_of(html);
    let n = s.len();
    let mut out: Vec<char> = Vec::new();
    let mut skipping = false;
    let mut tag: Vec<char> = Vec::new();
    let mut in_tag = false;
    let mut i: usize = 0;
    while i < n
        invariant
            n == s@.len(),
            s@ == html@,
            0 <= i <= n,
            out@ + stripped_from(
                s@,
                i as int,
                skipping,
                if in_tag {
                    Some(tag@)
                } else {
                    None
                },
            ) == stripped_from(s@, 0, false, None),
        decreases n - i,
    {
        let c = s[i];
        if in_tag {
            tag.push(c);
            if c == '>' {
                let lowered = lowercase(string_from(&tag).as_str());
                skipping = tag_effect(lowered.as_str(), skipping);
                in_tag = false;
                tag = Vec::new();
            }
        } else if c == '<' {
            in_tag = true;
            tag = Vec::new();
            tag.push(c);
            assert(tag@ == seq!['<']);
        } else if !skipping {
            proof {
                assert(out@.push(c) + stripped_from(s@, i + 1, skipping, None) == out@ + (seq![c]
                    + stripped_from(s@, i + 1, skipping, None)));
            }
            out.push(c);
        }
        i += 1;
    }
    proof {
        assert(stripped_from(s@, n as int, skipping, if in_tag { Some(tag@) } else { None })
            == Seq::<char>::empty());
        assert(out@ + Seq::<char>::empty() == out@);
    }
    proof {
        reveal_strlit("&nbsp;");
        reveal_strlit("&amp;");
        reveal_strlit("&lt;");
        reveal_strlit("&gt;");
        reveal_strlit("&quot;");
        reveal_strlit("&apos;");
    }
    let t1 = replace_str(&out, "&nbsp;", " ");
    let t2 = replace_str(&t1, "&amp;", "&");
    let t3 = replace_str(&t2, "&lt;", "<");
    let t4 = replace_str(&t3, "&gt;", ">");
    let t5 = replace_str(&t4, "&quot;", "\u{22}");
    let t6 = replace_str(&t5, "&apos;", "\u{27}");
    string_from(&t6)
}

/// Number of words: maximal runs of non-white-space characters.
pub open spec fn word_count(s: Seq<char>) -> nat
    decreases s.len(),
{
    if s.len() == 0 {
        0
    } else {
        let d = s.drop_last();
        word_count(d) + if !white_space(s.last()) && (d.len() == 0 || white_space(d.last())) {
            1nat
        } else {
            0nat
        }
    }
}

/// Number of uppercase characters.
pub open spec fn upper_count(s: Seq<char>) -> nat
    decreases s.len(),
{
    if s.len() == 0 {
        0
    } else {
        upper_count(s.drop_last()) + if upper_char(s.last()) {
            1nat
        } else {
            0nat
        }
    }
}

/// Number of alphabetic characters.
pub open spec fn alpha_count(s: Seq<char>) -> nat
    decreases s.len(),
{
    if s.len() == 0 {
        0
    } else {
        alpha_count(s.drop_last()) + if alpha_char(s.last()) {
            1nat
        } else {
            0nat
        }
    }
}

/// A line looks like a heading when it is at most 100 bytes and 15 words
/// long, and either more than three tenths of its letters are uppercase or
/// it starts with "Chapter" or "CHAPTER".
pub open spec fn likely_heading(t: Seq<char>) -> bool {
    &&& vstd::utf8::encode_utf8(t).len() <= 100
    &&& word_count(t) <= 15
    &&& ((alpha_count(t) > 0 && 10 * upper_count(t) > 3 * alpha_count(t)) || has_prefix(
        t,
        "Chapter"@,
    ) || has_prefix(t, "CHAPTER"@))
}

/// Whether a line of text looks like a heading.
pub fn is_likely_heading(text: &str) -> (r: bool)
    ensures
        r == likely_heading(text@),
{
    let bytes = text.as_bytes();
    if bytes.len() > 100 {
        return false;
    }
    let t = chars_of(text);
    let mut words: u64 = 0;
    let mut upper: u64 = 0;
    let mut alpha: u64 = 0;
    let mut i: usize = 0;
    while i < t.len()
        invariant
            0 <= i <= t.len(),
            words == word_count(t@.subrange(0, i as int)),
            upper == upper_count(t@.subrange(0, i as int)),
            alpha == alpha_count(t@.subrange(0, i as int)),
            words <= i && upper <= i && alpha <= i,
            t.len() <= usize::MAX,
        decreases t.len() - i,
    {
        let c = t[i];
        let ghost pre = t@.subrange(0, i + 1 as int);
        proof {
            assert(pre.drop_last() == t@.subrange(0, i as int));
            assert(pre.last() == c);
            if i > 0 {
                assert(t@.subrange(0, i as int).last() == t@[i - 1]);
            }
        }
        if !is_white_space(c) && (i == 0 || is_white_space(t[i - 1])) {
            words += 1;
        }
        if char_is_uppercase(c) {
            upper += 1;
        }
        if char_is_alphabetic(c) {
            alpha += 1;
        }
        i += 1;
    }
    assert(t@.subrange(0, t.len() as int) == t@);
    if words > 15 {
        return false;
    }
    if alpha > 0 && 10 * upper as u128 > 3 * alpha as u128 {
        return true;
    }
    starts_with(&t, &chars_of("Chapter")) || starts_with(&t, &chars_of("CHAPTER"))
}

/// The abstract content of a document element.
pub enum ElementModel {
    Text(Seq<char>),
    Heading(Seq<char>, u8),
    Image(Seq<char>, Seq<char>),
}

/// The abstract content of an element.
pub open spec fn element_model(e: DocumentElement) -> ElementModel {
    match e {
        DocumentElement::Text { content } => ElementModel::Text(content@),
        DocumentElement::Heading { content, level } => ElementModel::Heading(content@, level),
        DocumentElement::Image { id, url } => ElementModel::Image(id@, url@),
    }
}

/// The abstract contents of a sequence of elements.
pub open spec fn elements_model(v: Seq<DocumentElement>) -> Seq<ElementModel> {
    v.map_values(|e: DocumentElement| element_model(e))
}

/// The elements that a line gives: none for a blank line, else one heading
/// of level 1 or one text element holding the trimmed line.
pub open spec fn line_elements(line: Seq<char>) -> Seq<ElementModel> {
    let t = trimmed(line);
    if t.len() == 0 {
        Seq::empty()
    } else if likely_heading(t) {
        seq![ElementModel::Heading(t, 1)]
    } else {
        seq![ElementModel::Text(t)]
    }
}

/// The text split at each line feed; there is always at least one line.
pub open spec fn split_lines(s: Seq<char>) -> Seq<Seq<char>>
    decreases s.len(),
{
    if s.len() == 0 {
        seq![Seq::empty()]
    } else {
        let l = split_lines(s.drop_last());
        if s.last() == '\n' {
            l.push(Seq::empty())
        } else {
            l.update(l.len() - 1, l.last().push(s.last()))
        }
    }
}

/// The elements of a sequence of lines, in order.
pub open spec fn lines_elements(lines: Seq<Seq<char>>) -> Seq<ElementModel>
    decreases lines.len(),
{
    if lines.len() == 0 {
        Seq::empty()
    } else {
        lines_elements(lines.drop_last()) + line_elements(lines.last())
    }
}

/// The elements that a piece of markup gives.
pub open spec fn parsed_elements(html: Seq<char>) -> Seq<ElementModel> {
    lines_elements(split_lines(plain_text_of(html)))
}

/// The lines of `s` have at least one entry, the last being the text after
/// the last line feed.
proof fn lemma_split_lines_last(s: Seq<char>, start: int)
    requires
        0 <= start <= s.len(),
        forall|k: int| start <= k < s.len() ==> s[k] != '\n',
        start == 0 || s[start - 1] == '\n',
    ensures
        split_lines(s).len() >= 1,
        split_lines(s).last() == s.subrange(start, s.len() as int),
        split_lines(s).drop_last() == split_lines(s.subrange(0, start)).drop_last(),
    decreases s.len(),
{
    if s.len() == 0 {
    } else if s.len() == start {
        let d = s.drop_last();
        lemma_split_lines_len(d);
        assert(split_lines(s) == split_lines(d).push(Seq::<char>::empty()));
        assert(s.subrange(0, start) == s);
    } else {
        let d = s.drop_last();
        lemma_split_lines_last(d, start);
        assert(d.subrange(0, start) == s.subrange(0, start));
        assert(d.subrange(start, d.len() as int).push(s.last()) == s.subrange(start, s.len() as int));
        let l = split_lines(d);
        assert(split_lines(s) == l.update(l.len() - 1, l.last().push(s.last())));
        assert(split_lines(s).drop_last() == l.drop_last());
    }
}

/// There is always at least one line.
proof fn lemma_split_lines_len(s: Seq<char>)
    ensures
        split_lines(s).len() >= 1,
    decreases s.len(),
{
    if s.len() > 0 {
        lemma_split_lines_len(s.drop_last());
    }
}

/// Appends the element of one line, if any, to `elements`.
fn push_line(elements: &mut Vec<DocumentElement>, text: &Vec<char>, start: usize, end: usize)
    requires
        start <= end <= text.len(),
    ensures
        elements_model(final(elements)@) == elements_model(old(elements)@) + line_elements(
            text@.subrange(start as int, end as int),
        ),
{
    let (lo, hi) = trim_range(text, start, end);
    let ghost before = old(elements)@;
    if lo == hi {
        assert(elements_model(elements@) =~= elements_model(before) + Seq::<ElementModel>::empty());
        return;
    }
    let line = slice_chars(text, lo, hi);
    let content = string_from(&line);
    if is_likely_heading(content.as_str()) {
        elements.push(DocumentElement::Heading { content, level: 1 });
    } else {
        elements.push(DocumentElement::Text { content });
    }
    assert(elements_model(elements@) =~= elements_model(before) + line_elements(
        text@.subrange(start as int, end as int),
    ));
}

/// Turns a chapter's markup into elements and appends them: the plain text's
/// lines, trimmed, blank ones skipped, each a heading of level 1 when it looks
/// like one and a text element otherwise.
pub fn parse_html_content(html: &str, elements: &mut Vec<DocumentElement>)
    ensures
        elements_model(final(elements)@) == elements_model(old(elements)@) + parsed_elements(
            html@,
        ),
{
    let clean = strip_html_tags(html);
    let text = chars_of(clean.as_str());
    let n = text.len();
    let ghost base = elements_model(old(elements)@);
    let mut start: usize = 0;
    let mut i: usize = 0;
    while i < n
        invariant
            n == text@.len(),
            0 <= start <= i <= n,
            forall|k: int| start <= k < i ==> text@[k] != '\n',
            start == 0 || text@[start - 1] == '\n',
            elements_model(elements@) == base + lines_elements(
                split_lines(text@.subrange(0, i as int)).drop_last(),
            ),
        decreases n - i,
    {
        if text[i] == '\n' {
            proof {
                let pre = text@.subrange(0, i as int);
                let next = text@.subrange(0, i + 1 as int);
                assert(next.drop_last() == pre);
                lemma_split_lines_last(pre, start as int);
                assert(pre.subrange(start as int, i as int) == text@.subrange(start as int, i as int));
                lemma_split_lines_len(pre);
                let l = split_lines(pre);
                assert(split_lines(next) == l.push(Seq::<char>::empty()));
                assert(split_lines(next).drop_last() == l);
                assert(l.drop_last().push(l.last()) == l);
                assert(pre.subrange(0, start as int) == text@.subrange(0, start as int));
            }
            push_line(elements, &text, start, i);
            proof {
                let pre = text@.subrange(0, i as int);
                let l = split_lines(pre);
                assert(lines_elements(l) == lines_elements(l.drop_last()) + line_elements(l.last()));
                assert(l.drop_last() == split_lines(pre).drop_last());
                assert(base + lines_elements(l.drop_last()) + line_elements(l.last()) == base + (
                lines_elements(l.drop_last()) + line_elements(l.last())));
            }
            start = i + 1;
        } else {
            proof {
                let pre = text@.subrange(0, i as int);
                let next = text@.subrange(0, i + 1 as int);
                assert(next.drop_last() == pre);
                lemma_split_lines_len(pre);
                let l = split_lines(pre);
                assert(split_lines(next).drop_last() == l.drop_last());
            }
        }
        i += 1;
    }
    proof {
        let all = text@.subrange(0, n as int);
        assert(all == text@);
        lemma_split_lines_last(text@, start as int);
        assert(text@.subrange(0, start as int) == text@.subrange(0, start as int));
    }
    let ghost mid = elements_model(elements@);
    push_line(elements, &text, start, n);
    proof {
        lemma_split_lines_len(text@);
        let l = split_lines(text@);
        assert(lines_elements(l) == lines_elements(l.drop_last()) + line_elements(l.last()));
        assert(base + lines_elements(l.drop_last()) + line_elements(l.last()) == base + (
        lines_elements(l.drop_last()) + line_elements(l.last())));
    }
}

} // verus!
