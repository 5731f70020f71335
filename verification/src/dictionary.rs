//! The dictionary of recognition fixes: a text file of `heard => written`
//! lines between comments, blank lines and notes of the person's own. Reading
//! it, rewriting only its rules, and saving it against the exact bytes that
//! were read.

use crate::digest::{digest_form, is_digest_form, sha256_hex, sha256_text};
use crate::lines::{content_len, line_content, line_ending, line_views, lines, split_lines, unlines};
use crate::seqs::first_where;
use crate::text::{
    blank, byte_len, chars_of, decimal, decimal_text, encoding_of_parts, lowercase, same,
    skip_white, text_of, texts, trim, trimmed, trimmed_drops_what_follows, trimmed_has_clean_ends,
    trimmed_leaves_clean_text, trimming_leaves_the_middle, unicode_lowercase, white,
};
use vstd::prelude::*;
use vstd::utf8::{encode_utf8, valid_utf8};

verus! {

/// What the recognition engine and the file system bear.
#[derive(Debug, Clone, Copy, PartialEq, Eq, Structural)]
pub struct Limits {
    pub max_rules: usize,
    pub max_side_bytes: usize,
    pub max_document_bytes: usize,
}

/// A rule: what is heard, and what is written instead.
pub type Rule = (String, String);

/// What a rule says.
pub type RuleView = (Seq<char>, Seq<char>);

/// What a rule says.
pub open spec fn rule_view(r: Rule) -> RuleView {
    (r.0@, r.1@)
}

/// What a list of rules says.
pub open spec fn rules_view(rs: Seq<Rule>) -> Seq<RuleView> {
    rs.map_values(|r: Rule| rule_view(r))
}

/// Why a dictionary, or a list of rules for it, is refused.
#[derive(Debug, Clone, Copy, PartialEq, Eq, Structural)]
pub enum DictionaryError {
    TooManyRules { max: usize },
    TooManyLines { count: usize, max: usize },
    SideTooLong { replacement: bool, bytes: usize, max: usize },
    NotOneLine,
    NoRule,
    SizeOverflow,
    RulesTooLarge { max: usize },
    RewriteTooLarge { max: usize },
}

/// The position of the arrow in a line, or the length.
pub open spec fn arrow(s: Seq<char>, i: int) -> int
    decreases s.len() - i,
{
    if 0 <= i < s.len() {
        if i + 1 < s.len() && s[i] == '=' && s[i + 1] == '>' {
            i
        } else {
            arrow(s, i + 1)
        }
    } else {
        s.len() as int
    }
}

/// The rule that a line holds: text on both sides of the first arrow, in a
/// line that is no comment.
pub open spec fn line_rule(line: Seq<char>) -> Option<RuleView> {
    let l = trimmed(line);
    let k = arrow(l, 0);
    if l.len() == 0 || l[0] == '#' || k >= l.len() {
        None
    } else {
        let from = trimmed(l.take(k));
        let to = trimmed(l.skip(k + 2));
        if from.len() == 0 || to.len() == 0 {
            None
        } else {
            Some((from, to))
        }
    }
}

/// The byte order mark that may begin a document.
pub open spec fn mark() -> char {
    '\u{feff}'
}

/// What a line holds, without its ending and, at the start of the document,
/// without the byte order mark.
pub open spec fn rule_text(l: Seq<char>, first: bool) -> Seq<char> {
    let c = line_content(l);
    if first && c.len() > 0 && c[0] == mark() {
        c.skip(1)
    } else {
        c
    }
}

/// The rule in line `i`.
pub open spec fn rule_at(ls: Seq<Seq<char>>, i: int) -> Option<RuleView> {
    line_rule(rule_text(ls[i], i == 0))
}

/// The rules of the first `n` lines.
pub open spec fn rules_in(ls: Seq<Seq<char>>, n: int) -> Seq<RuleView>
    decreases n,
{
    if n <= 0 {
        Seq::empty()
    } else {
        match rule_at(ls, n - 1) {
            Some(r) => rules_in(ls, n - 1).push(r),
            None => rules_in(ls, n - 1),
        }
    }
}

/// The rules of a document.
pub open spec fn document_rules(source: Seq<char>) -> Seq<RuleView> {
    rules_in(lines(source), lines(source).len() as int)
}

/// Why a rule is too long, if it is.
pub open spec fn side_fault(r: RuleView, limits: Limits) -> Option<DictionaryError> {
    let from = encode_utf8(r.0).len();
    let to = encode_utf8(r.1).len();
    if from > limits.max_side_bytes {
        Some(
            DictionaryError::SideTooLong {
                replacement: false,
                bytes: from as usize,
                max: limits.max_side_bytes,
            },
        )
    } else if to > limits.max_side_bytes {
        Some(
            DictionaryError::SideTooLong {
                replacement: true,
                bytes: to as usize,
                max: limits.max_side_bytes,
            },
        )
    } else {
        None
    }
}

/// The rules of a document, or why it is refused: the first rule that is too
/// long, or that is one too many.
pub open spec fn parsed(source: Seq<char>, limits: Limits) -> Result<
    Seq<RuleView>,
    DictionaryError,
> {
    let rules = document_rules(source);
    let bad = first_where(rules, |r: RuleView| side_fault(r, limits) is Some, 0);
    if bad < rules.len() && bad < limits.max_rules {
        Err(side_fault(rules[bad], limits)->0)
    } else if rules.len() > limits.max_rules {
        Err(DictionaryError::TooManyRules { max: limits.max_rules })
    } else {
        Ok(rules)
    }
}

/// The position of the arrow in a line, or the length.
fn find_arrow(s: &[char]) -> (r: usize)
    ensures
        r == arrow(s@, 0),
        r <= s@.len(),
        r < s@.len() ==> r + 1 < s@.len(),
{
    let n: usize = s.len();
    let mut i: usize = 0;
    while i < n
        invariant
            i <= n,
            n == s@.len(),
            arrow(s@, 0) == arrow(s@, i as int),
        decreases n - i,
    {
        if n - i > 1 && s[i] == '=' && s[i + 1] == '>' {
            return i;
        }
        i += 1;
    }
    n
}

/// The rule that a line holds.
pub fn parse_rule_line(line: &str) -> (r: Option<(&str, &str)>)
    ensures
        match r {
            Some(pair) => line_rule(line@) == Some((pair.0@, pair.1@)),
            None => line_rule(line@) is None,
        },
{
    let l = trim(line);
    let chars = chars_of(l);
    if chars.len() == 0 || chars[0] == '#' {
        return None;
    }
    let k: usize = find_arrow(&chars);
    if k >= chars.len() {
        return None;
    }
    let from = trim(l.substring_char(0, k));
    let to = trim(l.substring_char(k + 2, chars.len()));
    proof {
        assert(l@.subrange(0, k as int) =~= l@.take(k as int));
        assert(l@.subrange(k + 2, l@.len() as int) =~= l@.skip(k + 2));
    }
    if from.is_empty() || to.is_empty() {
        None
    } else {
        Some((from, to))
    }
}

/// Are both sides of a rule short enough?
pub fn validate_rule_sides(from: &str, to: &str, limits: &Limits) -> (r: Result<
    (),
    DictionaryError,
>)
    ensures
        match r {
            Ok(_) => side_fault((from@, to@), *limits) is None,
            Err(e) => side_fault((from@, to@), *limits) == Some(e),
        },
{
    let bytes: usize = byte_len(from);
    if bytes > limits.max_side_bytes {
        return Err(
            DictionaryError::SideTooLong { replacement: false, bytes, max: limits.max_side_bytes },
        );
    }
    let bytes: usize = byte_len(to);
    if bytes > limits.max_side_bytes {
        return Err(
            DictionaryError::SideTooLong { replacement: true, bytes, max: limits.max_side_bytes },
        );
    }
    Ok(())
}

/// What line `i` holds for the search for a rule.
fn rule_text_of(l: &[char], first: bool) -> (r: String)
    ensures
        r@ == rule_text(l@, first),
{
    let end: usize = content_len(l);
    let ghost c = line_content(l@);
    let start: usize = if first && end > 0 && l[0] == '\u{feff}' {
        1
    } else {
        0
    };
    proof {
        assert(end > 0 ==> c[0] == l@[0]);
    }
    let part = vstd::slice::slice_subrange(l, start, end);
    assert(part@ =~= rule_text(l@, first));
    text_of(part)
}

proof fn rules_in_grows(ls: Seq<Seq<char>>, a: int, b: int)
    requires
        0 <= a <= b,
    ensures
        rules_in(ls, a).len() <= rules_in(ls, b).len(),
        rules_in(ls, b).take(rules_in(ls, a).len() as int) == rules_in(ls, a),
    decreases b - a,
{
    if a < b {
        rules_in_grows(ls, a, b - 1);
        let x = rules_in(ls, a);
        let y = rules_in(ls, b - 1);
        let z = rules_in(ls, b);
        assert(z.take(x.len() as int) =~= x) by {
            assert forall|i: int| 0 <= i < x.len() implies z[i] == x[i] by {
                assert(y.take(x.len() as int)[i] == x[i]);
            }
        }
    } else {
        assert(rules_in(ls, b).take(rules_in(ls, b).len() as int) =~= rules_in(ls, b));
    }
}

/// The rules of a document.
pub fn parse_rules(content: &str, limits: &Limits) -> (r: Result<Vec<Rule>, DictionaryError>)
    ensures
        match r {
            Ok(rules) => parsed(content@, *limits) == Ok::<Seq<RuleView>, DictionaryError>(
                rules_view(rules@),
            ),
            Err(e) => parsed(content@, *limits) == Err::<Seq<RuleView>, DictionaryError>(e),
        },
{
    let parts = split_lines(content);
    let ghost ls = lines(content@);
    let ghost all = document_rules(content@);
    let ghost bad = |r: RuleView| side_fault(r, *limits) is Some;
    let mut rules: Vec<Rule> = Vec::new();
    let mut i: usize = 0;
    assert(rules_view(rules@) =~= Seq::<RuleView>::empty());
    while i < parts.len()
        invariant
            i <= parts@.len(),
            ls == line_views(parts@),
            ls == lines(content@),
            all == rules_in(ls, ls.len() as int),
            bad == (|r: RuleView| side_fault(r, *limits) is Some),
            rules_view(rules@) == rules_in(ls, i as int),
            rules@.len() <= limits.max_rules,
            first_where(all, bad, 0) == first_where(all, bad, rules@.len() as int),
            rules@.len() <= all.len(),
        decreases parts@.len() - i,
    {
        let text = rule_text_of(&parts[i], i == 0);
        assert(ls[i as int] == parts@[i as int]@);
        proof {
            rules_in_grows(ls, i as int, ls.len() as int);
            rules_in_grows(ls, i + 1, ls.len() as int);
        }
        let ghost n = rules@.len();
        if let Some((from, to)) = parse_rule_line(&text) {
            let ghost rule = (from@, to@);
            proof {
                assert(rules_in(ls, i + 1) == rules_in(ls, i as int).push(rule));
                assert(all.take(n + 1int)[n as int] == rule);
                assert(all[n as int] == rule);
            }
            if rules.len() >= limits.max_rules {
                proof {
                    crate::seqs::first_where_is_first(all, bad, n as int);
                }
                return Err(DictionaryError::TooManyRules { max: limits.max_rules });
            }
            match validate_rule_sides(from, to, limits) {
                Ok(_) => {},
                Err(e) => {
                    assert(first_where(all, bad, n as int) == n);
                    return Err(e);
                },
            }
            let kept = (from.to_owned(), to.to_owned());
            let ghost before = rules@;
            rules.push(kept);
            assert(rules_view(rules@) =~= rules_view(before).push(rule));
        }
        i += 1;
    }
    proof {
        crate::seqs::first_where_is_first(all, bad, all.len() as int);
    }
    Ok(rules)
}


/// A rule in the form in which it is written.
pub open spec fn rule_line(r: RuleView) -> Seq<char> {
    r.0 + " => "@ + r.1
}

/// The text has a line break in it.
pub open spec fn breaks(s: Seq<char>) -> bool {
    exists|i: int| 0 <= i < s.len() && (#[trigger] s[i] == '\r' || s[i] == '\n')
}

/// How many bytes the rules in the first `n` entries take, one line each.
pub open spec fn written_bytes(entries: Seq<Seq<char>>, n: int) -> nat
    decreases n,
{
    if n <= 0 {
        0
    } else {
        written_bytes(entries, n - 1) + encode_utf8(
            rule_line(line_rule(entries[n - 1])->0),
        ).len() + 1
    }
}

/// Why entry `i` is refused, where none before it is.
pub open spec fn entry_fault(entries: Seq<Seq<char>>, i: int, limits: Limits) -> Option<
    DictionaryError,
> {
    if breaks(entries[i]) {
        Some(DictionaryError::NotOneLine)
    } else {
        match line_rule(entries[i]) {
            None => Some(DictionaryError::NoRule),
            Some(r) => if side_fault(r, limits) is Some {
                side_fault(r, limits)
            } else if written_bytes(entries, i + 1) > usize::MAX {
                Some(DictionaryError::SizeOverflow)
            } else if written_bytes(entries, i + 1) > limits.max_document_bytes {
                Some(DictionaryError::RulesTooLarge { max: limits.max_document_bytes })
            } else {
                None
            },
        }
    }
}

/// The first entry from `i` on that is refused, or the length.
pub open spec fn first_fault(entries: Seq<Seq<char>>, i: int, limits: Limits) -> int
    decreases entries.len() - i,
{
    if 0 <= i < entries.len() {
        if entry_fault(entries, i, limits) is Some {
            i
        } else {
            first_fault(entries, i + 1, limits)
        }
    } else {
        entries.len() as int
    }
}

/// The entries as they are written, or why one of them is refused.
pub open spec fn normalized(entries: Seq<Seq<char>>, limits: Limits) -> Result<
    Seq<Seq<char>>,
    DictionaryError,
> {
    let bad = first_fault(entries, 0, limits);
    if entries.len() > limits.max_rules {
        Err(
            DictionaryError::TooManyLines {
                count: entries.len() as usize,
                max: limits.max_rules,
            },
        )
    } else if bad < entries.len() {
        Err(entry_fault(entries, bad, limits)->0)
    } else {
        Ok(entries.map_values(|e: Seq<char>| rule_line(line_rule(e)->0)))
    }
}

/// The byte order mark of a first line that has one.
pub open spec fn kept_mark(l: Seq<char>, first: bool) -> Seq<char> {
    let c = line_content(l);
    if first && c.len() > 0 && c[0] == mark() {
        seq![mark()]
    } else {
        Seq::empty()
    }
}

/// Line `i` after its rule, if it has one, has been replaced. The rules are
/// replaced in their order; those beyond the replacements are taken out. Any
/// other line stays as it is.
pub open spec fn rewritten_line(
    ls: Seq<Seq<char>>,
    replacements: Seq<Seq<char>>,
    i: int,
) -> Seq<char> {
    let k = rules_in(ls, i).len() as int;
    if rule_at(ls, i) is None {
        ls[i]
    } else if k < replacements.len() {
        kept_mark(ls[i], i == 0) + replacements[k] + line_ending(ls[i])
    } else {
        kept_mark(ls[i], i == 0) + line_ending(ls[i])
    }
}

/// The lines after their rules have been replaced.
pub open spec fn rewritten_lines(ls: Seq<Seq<char>>, replacements: Seq<Seq<char>>) -> Seq<
    Seq<char>,
> {
    Seq::new(ls.len(), |i: int| rewritten_line(ls, replacements, i))
}

/// The line ending that the document uses.
pub open spec fn newline_of(ls: Seq<Seq<char>>) -> Seq<char> {
    if ls.len() > 0 && line_ending(ls[0]).len() > 0 {
        line_ending(ls[0])
    } else {
        seq!['\n']
    }
}

/// The replacements from `k` on, one line each.
pub open spec fn added_lines(replacements: Seq<Seq<char>>, k: int, newline: Seq<char>) -> Seq<
    Seq<char>,
> {
    Seq::new(
        (if k < replacements.len() {
            replacements.len() - k
        } else {
            0
        }) as nat,
        |j: int| replacements[k + j] + newline,
    )
}

/// What separates the lines that are added from those that were there.
pub open spec fn separator(body: Seq<char>, newline: Seq<char>) -> Seq<char> {
    if body.len() > 0 && body.last() != '\n' {
        newline
    } else {
        Seq::empty()
    }
}

/// The document with its rules replaced: in place as far as there are rules,
/// and the rest added at the end.
pub open spec fn rewritten(source: Seq<char>, replacements: Seq<Seq<char>>) -> Seq<char> {
    let ls = lines(source);
    let body = unlines(rewritten_lines(ls, replacements));
    let used = rules_in(ls, ls.len() as int).len() as int;
    let newline = newline_of(ls);
    if used < replacements.len() {
        body + separator(body, newline) + unlines(added_lines(replacements, used, newline))
    } else {
        body
    }
}

/// Is there a line break in the text?
pub fn has_break(s: &str) -> (r: bool)
    ensures
        r == breaks(s@),
{
    let chars = chars_of(s);
    let mut i: usize = 0;
    while i < chars.len()
        invariant
            i <= chars@.len(),
            chars@ == s@,
            forall|k: int| 0 <= k < i ==> #[trigger] chars@[k] != '\r' && chars@[k] != '\n',
        decreases chars@.len() - i,
    {
        if chars[i] == '\r' || chars[i] == '\n' {
            assert(s@[i as int] == '\r' || s@[i as int] == '\n');
            return true;
        }
        i += 1;
    }
    false
}

/// A rule in the form in which it is written.
pub fn format_rule(from: &str, to: &str) -> (r: String)
    ensures
        r@ == rule_line((from@, to@)),
{
    from.to_owned().concat(" => ").concat(to)
}

/// The entries of an edit as they are written, or why one of them is refused.
pub fn normalize_rule_lines(entries: &[String], limits: &Limits) -> (r: Result<
    Vec<String>,
    DictionaryError,
>)
    ensures
        match r {
            Ok(out) => normalized(texts(entries@), *limits) == Ok::<
                Seq<Seq<char>>,
                DictionaryError,
            >(texts(out@)),
            Err(e) => normalized(texts(entries@), *limits) == Err::<
                Seq<Seq<char>>,
                DictionaryError,
            >(e),
        },
{
    let ghost all = texts(entries@);
    if entries.len() > limits.max_rules {
        return Err(
            DictionaryError::TooManyLines { count: entries.len(), max: limits.max_rules },
        );
    }
    let ghost write = |e: Seq<char>| rule_line(line_rule(e)->0);
    let mut out: Vec<String> = Vec::new();
    let mut total: usize = 0;
    let mut i: usize = 0;
    assert(texts(out@) =~= all.take(0).map_values(write));
    while i < entries.len()
        invariant
            i <= entries@.len(),
            entries@.len() <= limits.max_rules,
            all == texts(entries@),
            write == (|e: Seq<char>| rule_line(line_rule(e)->0)),
            texts(out@) == all.take(i as int).map_values(write),
            total == written_bytes(all, i as int),
            first_fault(all, 0, *limits) == first_fault(all, i as int, *limits),
        decreases entries@.len() - i,
    {
        let entry = entries[i].as_str();
        assert(all[i as int] == entry@);
        if has_break(entry) {
            return Err(DictionaryError::NotOneLine);
        }
        let (from, to) = match parse_rule_line(entry) {
            Some(pair) => pair,
            None => {
                return Err(DictionaryError::NoRule);
            },
        };
        match validate_rule_sides(from, to, limits) {
            Ok(_) => {},
            Err(e) => {
                return Err(e);
            },
        }
        let line = format_rule(from, to);
        let size: usize = byte_len(&line);
        let grown = match total.checked_add(size) {
            Some(sum) => sum.checked_add(1),
            None => None,
        };
        match grown {
            Some(sum) => {
                total = sum;
            },
            None => {
                return Err(DictionaryError::SizeOverflow);
            },
        }
        if total > limits.max_document_bytes {
            return Err(DictionaryError::RulesTooLarge { max: limits.max_document_bytes });
        }
        let ghost before = out@;
        out.push(line);
        i += 1;
        assert(texts(out@) =~= all.take(i as int).map_values(write)) by {
            assert(texts(out@) =~= texts(before).push(line@));
            assert(all.take(i as int) =~= all.take(i - 1).push(all[i - 1]));
        }
    }
    assert(all.take(all.len() as int) =~= all);
    Ok(out)
}

/// Puts characters at the end.
fn push_chars(out: &mut Vec<char>, part: &[char])
    ensures
        final(out)@ == old(out)@ + part@,
{
    let ghost before = out@;
    let mut i: usize = 0;
    assert(out@ =~= before + part@.take(0));
    while i < part.len()
        invariant
            i <= part@.len(),
            out@ == before + part@.take(i as int),
        decreases part@.len() - i,
    {
        out.push(part[i]);
        i += 1;
        assert(out@ =~= before + part@.take(i as int));
    }
    assert(part@.take(part@.len() as int) =~= part@);
}

proof fn unlines_step(ls: Seq<Seq<char>>, i: int)
    requires
        0 <= i < ls.len(),
    ensures
        unlines(ls.take(i + 1)) == unlines(ls.take(i)) + ls[i],
{
    assert(ls.take(i + 1).drop_last() =~= ls.take(i));
}

/// Replaces the rules of a document: in place as far as there are rules, and
/// the rest added at the end in the document's own line ending. Every comment,
/// blank line and line that holds no rule stays as it is, character for
/// character.
pub fn rewrite_rules_source_normalized(
    source: &str,
    replacements: &[String],
    limits: &Limits,
) -> (r: Result<String, DictionaryError>)
    ensures
        match r {
            Ok(out) => out@ == rewritten(source@, texts(replacements@)) && encode_utf8(out@).len()
                <= limits.max_document_bytes,
            Err(e) => e == (DictionaryError::RewriteTooLarge { max: limits.max_document_bytes })
                && encode_utf8(rewritten(source@, texts(replacements@))).len()
                > limits.max_document_bytes,
        },
{
    let parts = split_lines(source);
    let ghost ls = lines(source@);
    let ghost repl = texts(replacements@);
    let ghost new = rewritten_lines(ls, repl);
    proof {
        crate::lines::lines_make_the_text(source@);
    }
    let mut out: Vec<char> = Vec::new();
    let mut used: usize = 0;
    let mut newline: Vec<char> = Vec::new();
    newline.push('\n');
    if parts.len() > 0 {
        let end: usize = content_len(&parts[0]);
        let n: usize = parts[0].len();
        assert(ls[0] == parts@[0]@);
        if end < n {
            newline = Vec::new();
            let ending = vstd::slice::slice_subrange(parts[0].as_slice(), end, n);
            push_chars(&mut newline, ending);
            assert(newline@ =~= line_ending(ls[0]));
        }
    }
    assert(newline@ =~= newline_of(ls));
    let mut i: usize = 0;
    assert(new.take(0) =~= Seq::<Seq<char>>::empty());
    while i < parts.len()
        invariant
            i <= parts@.len(),
            ls == line_views(parts@),
            repl == texts(replacements@),
            new == rewritten_lines(ls, repl),
            out@ == unlines(new.take(i as int)),
            used == (if rules_in(ls, i as int).len() <= repl.len() {
                rules_in(ls, i as int).len()
            } else {
                repl.len()
            }),
        decreases parts@.len() - i,
    {
        let line = &parts[i];
        assert(ls[i as int] == line@);
        proof {
            unlines_step(new, i as int);
        }
        let ghost before = out@;
        let text = rule_text_of(line, i == 0);
        if parse_rule_line(&text).is_some() {
            let end: usize = content_len(line);
            let n: usize = line.len();
            assert(end > 0 ==> line_content(line@)[0] == line@[0]);
            if i == 0 && end > 0 && line[0] == '\u{feff}' {
                out.push('\u{feff}');
            }
            assert(out@ =~= before + kept_mark(ls[i as int], i == 0));
            if used < replacements.len() {
                let replacement = chars_of(&replacements[used]);
                assert(repl[used as int] == replacement@);
                push_chars(&mut out, &replacement);
                used += 1;
            }
            let ending = vstd::slice::slice_subrange(line.as_slice(), end, n);
            assert(ending@ =~= line_ending(line@));
            push_chars(&mut out, ending);
            assert(out@ =~= before + new[i as int]);
        } else {
            push_chars(&mut out, line);
            assert(new[i as int] == ls[i as int]);
        }
        i += 1;
    }
    assert(new.take(new.len() as int) =~= new);
    if used < replacements.len() {
        let ghost body = out@;
        if out.len() > 0 && out[out.len() - 1] != '\n' {
            push_chars(&mut out, &newline);
        }
        let ghost start = out@;
        assert(start =~= body + separator(body, newline@));
        let ghost first = used as int;
        let ghost added = added_lines(repl, first, newline@);
        assert(added.take(0) =~= Seq::<Seq<char>>::empty());
        assert(start =~= start + unlines(added.take(0)));
        while used < replacements.len()
            invariant
                0 <= first <= used <= replacements@.len(),
                repl == texts(replacements@),
                added == added_lines(repl, first, newline@),
                out@ == start + unlines(added.take(used - first)),
            decreases replacements@.len() - used,
        {
            proof {
                unlines_step(added, used - first);
            }
            let ghost before = out@;
            let replacement = chars_of(&replacements[used]);
            assert(repl[used as int] == replacement@);
            push_chars(&mut out, &replacement);
            push_chars(&mut out, &newline);
            assert(added[used - first] == repl[used as int] + newline@);
            assert(out@ =~= before + added[used - first]);
            used += 1;
            assert(out@ =~= start + unlines(added.take(used - first)));
        }
        assert(added.take(added.len() as int) =~= added);
    }
    let text = text_of(&out);
    assert(text@ == rewritten(source@, repl));
    if byte_len(&text) > limits.max_document_bytes {
        return Err(DictionaryError::RewriteTooLarge { max: limits.max_document_bytes });
    }
    Ok(text)
}


proof fn arrow_is_first(s: Seq<char>, i: int)
    requires
        0 <= i <= s.len(),
    ensures
        i <= arrow(s, i) <= s.len(),
        arrow(s, i) < s.len() ==> arrow(s, i) + 1 < s.len() && s[arrow(s, i)] == '=' && s[arrow(
            s,
            i,
        ) + 1] == '>',
        forall|k: int|
            i <= k < arrow(s, i) && k + 1 < s.len() ==> !(#[trigger] s[k] == '=' && s[k + 1] == '>'),
    decreases s.len() - i,
{
    if i < s.len() && !(i + 1 < s.len() && s[i] == '=' && s[i + 1] == '>') {
        arrow_is_first(s, i + 1);
    }
}

proof fn arrow_found(s: Seq<char>, i: int, k: int)
    requires
        0 <= i <= k,
        k + 1 < s.len(),
        s[k] == '=',
        s[k + 1] == '>',
        forall|j: int| i <= j < k ==> !(#[trigger] s[j] == '=' && s[j + 1] == '>'),
    ensures
        arrow(s, i) == k,
    decreases k - i,
{
    if i < k {
        assert(!(s[i] == '=' && s[i + 1] == '>'));
        arrow_found(s, i + 1, k);
    }
}

/// A rule that was read from a line is read back from the line that is written
/// for it.
pub proof fn written_rule_reads_back(line: Seq<char>)
    requires
        line_rule(line) is Some,
    ensures
        line_rule(rule_line(line_rule(line)->0)) == line_rule(line),
        !breaks(line) ==> !breaks(rule_line(line_rule(line)->0)),
        rule_line(line_rule(line)->0).len() > 0,
        !white(rule_line(line_rule(line)->0).last()),
        rule_line(line_rule(line)->0)[0] == (line_rule(line)->0).0[0],
{
    reveal_strlit(" => ");
    let l = trimmed(line);
    trimmed_has_clean_ends(line);
    arrow_is_first(l, 0);
    let k = arrow(l, 0);
    let left = l.take(k);
    let right = l.skip(k + 2);
    trimmed_has_clean_ends(left);
    trimmed_has_clean_ends(right);
    let from = trimmed(left);
    let to = trimmed(right);
    let w = rule_line((from, to));
    assert(left.len() > 0);
    assert(left[0] == l[0]);
    assert(from[0] == l[0]);
    assert(w[0] == from[0]);
    assert(w.last() == to.last());
    trimmed_leaves_clean_text(w);
    let n = from.len() as int;
    assert(w[n] == ' ' && w[n + 1] == '=' && w[n + 2] == '>' && w[n + 3] == ' ');
    let a = skip_white(left, 0);
    assert forall|j: int| 0 <= j < n + 1 implies !(#[trigger] w[j] == '=' && w[j + 1] == '>') by {
        if j < n - 1 {
            assert(w[j] == from[j] && w[j + 1] == from[j + 1]);
            assert(from[j] == l[a + j] && from[j + 1] == l[a + j + 1]);
            assert(!(l[a + j] == '=' && l[a + j + 1] == '>'));
        }
    }
    arrow_found(w, 0, n + 1);
    assert(w.take(n + 1) =~= from.push(' '));
    assert(w.skip(n + 3) =~= seq![' '] + to);
    trimmed_leaves_clean_text(from);
    trimmed_leaves_clean_text(to);
    if !breaks(line) {
        let b = skip_white(right, 0);
        let c = skip_white(line, 0);
        assert forall|j: int| 0 <= j < w.len() implies #[trigger] w[j] != '\r' && w[j] != '\n' by {
            if j < n {
                assert(w[j] == line[c + a + j]);
            } else if j >= n + 4 {
                assert(w[j] == line[c + k + 2 + b + j - n - 4]);
            }
        }
    }
}


/// The replacements are lines that hold the rules.
pub open spec fn replacements_hold(replacements: Seq<Seq<char>>, rules: Seq<RuleView>) -> bool {
    &&& replacements.len() == rules.len()
    &&& forall|j: int|
        #![trigger replacements[j]]
        0 <= j < rules.len() ==> {
            &&& line_rule(replacements[j]) == Some(rules[j])
            &&& replacements[j].len() > 0
            &&& !white(replacements[j].last())
            &&& !breaks(replacements[j])
        }
}

/// No replacement is mistaken for the byte order mark of the document: the first one
/// does not begin with that character, or something stands before it in the text,
/// which is a line that holds no rule or a mark of the document's own.
pub open spec fn mark_told(ls: Seq<Seq<char>>, replacements: Seq<Seq<char>>) -> bool {
    replacements.len() > 0 && replacements[0].len() > 0 && replacements[0][0] == mark() ==> ls.len()
        > 0 && (rule_at(ls, 0) is None || kept_mark(ls[0], true).len() > 0)
}

/// Adding a line ending to a text without one gives a line that holds the text.
proof fn ended_text(text: Seq<char>, ending: Seq<char>)
    requires
        ending == seq!['\n'] || ending == seq!['\r', '\n'],
        !breaks(text),
    ensures
        crate::lines::one_line(text + ending),
        crate::lines::ended(text + ending),
        line_content(text + ending) == text,
        line_content(text) == text,
{
    let l = text + ending;
    assert(l.last() == '\n');
    assert forall|i: int| 0 <= i < l.len() - 1 implies l[i] != '\n' by {
        if i < text.len() {
            assert(l[i] == text[i]);
            assert(text[i] != '\n');
        }
    }
    if text.len() > 0 {
        assert(text.last() != '\r' && text.last() != '\n') by {
            assert(text[text.len() - 1] != '\n');
        }
        assert(ending.len() == 1 ==> l[l.len() - 2] == text.last());
    }
    assert(ending.len() == 2 ==> l[l.len() - 2] == '\r');
    assert(line_content(l) =~= text);
}

/// The ending of a line is nothing or one of the two line endings.
proof fn endings(l: Seq<char>)
    requires
        crate::lines::one_line(l),
    ensures
        crate::lines::ended(l) ==> line_ending(l) == seq!['\n'] || line_ending(l) == seq![
            '\r',
            '\n',
        ],
        !crate::lines::ended(l) ==> line_ending(l).len() == 0 && line_content(l) == l && (forall|
            i: int,
        |
            0 <= i < l.len() ==> l[i] != '\n'),
        line_content(l) + line_ending(l) == l,
{
    if crate::lines::ended(l) {
        if l.len() > 1 && l[l.len() - 2] == '\r' {
            assert(line_ending(l) =~= seq!['\r', '\n']);
        } else {
            assert(line_ending(l) =~= seq!['\n']);
        }
    }
    assert(line_content(l) + line_ending(l) =~= l);
}

/// What a line holds after it has been rewritten.
proof fn rewritten_line_holds(
    ls: Seq<Seq<char>>,
    replacements: Seq<Seq<char>>,
    rules: Seq<RuleView>,
    i: int,
)
    requires
        crate::lines::well_cut(ls),
        0 <= i < ls.len(),
        replacements_hold(replacements, rules),
        mark_told(ls, replacements),
    ensures
        ({
            let new = rewritten_line(ls, replacements, i);
            let k = rules_in(ls, i).len() as int;
            &&& crate::lines::ended(ls[i]) ==> crate::lines::one_line(new) && crate::lines::ended(
                new,
            )
            &&& !crate::lines::ended(ls[i]) ==> forall|j: int|
                0 <= j < new.len() ==> new[j] != '\n'
            &&& line_rule(rule_text(new, i == 0)) == (if rule_at(ls, i) is Some && k < rules.len() {
                Some(rules[k])
            } else {
                None
            })
            &&& rule_at(ls, i) is Some && k < rules.len() ==> rule_text(new, i == 0)
                == replacements[k]
            &&& rule_at(ls, i) is None || k < rules.len() ==> new.len() > 0
            &&& rule_at(ls, i) is Some && !crate::lines::ended(ls[i]) && k < rules.len()
                ==> new.last() != '\r'
        }),
{
    let l = ls[i];
    let new = rewritten_line(ls, replacements, i);
    let k = rules_in(ls, i).len() as int;
    endings(l);
    assert(crate::lines::one_line(l));
    if rule_at(ls, i) is Some {
        let kept = kept_mark(l, i == 0);
        let body = if k < replacements.len() {
            kept + replacements[k]
        } else {
            kept
        };
        assert(new =~= body + line_ending(l));
        if k < replacements.len() {
            assert(body.last() == replacements[k].last());
        }
        assert(!breaks(body)) by {
            assert forall|j: int| 0 <= j < body.len() implies #[trigger] body[j] != '\r' && body[j]
                != '\n' by {
                if j >= kept.len() {
                    assert(body[j] == replacements[k][j - kept.len()]);
                }
            }
        }
        if crate::lines::ended(l) {
            ended_text(body, line_ending(l));
        } else {
            ended_text(body, seq!['\n']);
            assert(new =~= body);
            assert forall|j: int| 0 <= j < new.len() implies new[j] != '\n' by {
                assert(body[j] != '\n');
            }
        }
        assert(line_content(new) == body);
        if k < replacements.len() {
            if i == 0 {
                assert(rules_in(ls, 0).len() == 0);
            }
            if kept.len() == 0 {
                assert(body =~= replacements[k]);
                assert(rule_text(new, i == 0) =~= replacements[k]);
            } else {
                assert(body[0] == mark());
                assert(rule_text(new, i == 0) =~= replacements[k]);
            }
        } else {
            assert(rule_text(new, i == 0) =~= Seq::<char>::empty());
            trimmed_has_clean_ends(Seq::<char>::empty());
        }
    }
}

/// The rules of the first `n` lines after these have been rewritten.
proof fn rules_of_rewritten(
    ls: Seq<Seq<char>>,
    replacements: Seq<Seq<char>>,
    rules: Seq<RuleView>,
    out: Seq<Seq<char>>,
    n: int,
)
    requires
        crate::lines::well_cut(ls),
        replacements_hold(replacements, rules),
        mark_told(ls, replacements),
        0 <= n <= ls.len(),
        n <= out.len(),
        forall|i: int|
            0 <= i < n ==> rule_at(out, i) == line_rule(
                rule_text(#[trigger] rewritten_line(ls, replacements, i), i == 0),
            ),
    ensures
        rules_in(out, n) == (if rules_in(ls, n).len() <= rules.len() {
            rules.take(rules_in(ls, n).len() as int)
        } else {
            rules
        }),
    decreases n,
{
    if n > 0 {
        rules_of_rewritten(ls, replacements, rules, out, n - 1);
        rewritten_line_holds(ls, replacements, rules, n - 1);
        let k = rules_in(ls, n - 1).len() as int;
        assert(rule_at(out, n - 1) == line_rule(
            rule_text(rewritten_line(ls, replacements, n - 1), n - 1 == 0),
        ));
        if rule_at(ls, n - 1) is Some {
            if k < rules.len() {
                assert(rules.take(k).push(rules[k]) =~= rules.take(k + 1));
            }
        }
        assert(rules.take(rules.len() as int) =~= rules);
    } else {
        assert(rules.take(0) =~= Seq::<RuleView>::empty());
    }
}

/// The rules of the lines that are added after `out`.
proof fn rules_of_added(
    replacements: Seq<Seq<char>>,
    rules: Seq<RuleView>,
    newline: Seq<char>,
    out: Seq<Seq<char>>,
    k: int,
    n: int,
)
    requires
        replacements_hold(replacements, rules),
        newline == seq!['\n'] || newline == seq!['\r', '\n'],
        0 <= k <= n <= rules.len(),
        out.len() == 0 ==> k == 0 && (replacements.len() > 0 ==> replacements[0][0] != mark()),
        rules_in(out, out.len() as int) == rules.take(k),
    ensures
        rules_in(
            out + added_lines(replacements, k, newline).take(n - k),
            out.len() + n - k,
        ) == rules.take(n),
        forall|j: int|
            0 <= j < n - k ==> crate::lines::one_line(
                #[trigger] added_lines(replacements, k, newline)[j],
            ) && crate::lines::ended(added_lines(replacements, k, newline)[j]),
    decreases n - k,
{
    let added = added_lines(replacements, k, newline);
    if n > k {
        rules_of_added(replacements, rules, newline, out, k, n - 1);
        let shorter = out + added.take(n - 1 - k);
        let longer = out + added.take(n - k);
        let last = added[n - 1 - k];
        ended_text(replacements[n - 1], newline);
        assert(last == replacements[n - 1] + newline);
        assert(longer =~= shorter.push(last));
        rules_in_prefix(shorter, longer, shorter.len() as int);
        assert(rule_text(last, longer.len() == 1) == replacements[n - 1]);
        assert(rules.take(n - 1).push(rules[n - 1]) =~= rules.take(n));
        assert(rule_at(longer, longer.len() - 1) == Some(rules[n - 1]));
    } else {
        assert(out + added.take(0) =~= out);
    }
}

/// The rules of the first lines depend on these lines alone.
proof fn rules_in_prefix(a: Seq<Seq<char>>, b: Seq<Seq<char>>, n: int)
    requires
        0 <= n <= a.len() <= b.len(),
        forall|i: int| 0 <= i < n ==> #[trigger] a[i] == b[i],
    ensures
        rules_in(a, n) == rules_in(b, n),
    decreases n,
{
    if n > 0 {
        rules_in_prefix(a, b, n - 1);
        assert(a[n - 1] == b[n - 1]);
    }
}

/// A last line keeps its rule, or holds none still, when a line ending is put
/// after it.
proof fn closing_a_line_keeps_its_rule(l: Seq<char>, first: bool, newline: Seq<char>)
    requires
        newline == seq!['\n'] || newline == seq!['\r', '\n'],
        l.len() > 0,
        forall|i: int| 0 <= i < l.len() ==> l[i] != '\n',
    ensures
        line_rule(rule_text(l + newline, first)) == line_rule(rule_text(l, first)),
        l.last() != '\r' ==> rule_text(l + newline, first) == rule_text(l, first),
        crate::lines::one_line(l + newline),
        crate::lines::ended(l + newline),
{
    let closed = l + newline;
    assert(closed.last() == '\n');
    assert(line_content(l) == l);
    assert forall|i: int| 0 <= i < closed.len() - 1 implies closed[i] != '\n' by {
        if i < l.len() {
            assert(closed[i] == l[i]);
        }
    }
    if newline.len() == 1 {
        assert(closed[closed.len() - 2] == l.last());
        if l.last() == '\r' {
            let c = l.take(l.len() - 1);
            assert(line_content(closed) =~= c);
            let shorter = rule_text(closed, first);
            let longer = rule_text(l, first);
            assert(longer =~= shorter.push('\r')) by {
                if l.len() > 1 {
                    assert(c[0] == l[0]);
                }
            }
            trimmed_drops_what_follows(shorter, '\r');
        } else {
            assert(line_content(closed) =~= l);
        }
    } else {
        assert(closed[closed.len() - 2] == '\r');
        assert(line_content(closed) =~= l);
    }
}

/// The lines of the document with its rules replaced.
spec fn written_lines(ls: Seq<Seq<char>>, replacements: Seq<Seq<char>>) -> Seq<Seq<char>> {
    let new = rewritten_lines(ls, replacements);
    let n = ls.len() as int;
    let used = rules_in(ls, n).len() as int;
    if used < replacements.len() {
        closed_lines(new, newline_of(ls)) + added_lines(replacements, used, newline_of(ls))
    } else if n > 0 && new[n - 1].len() == 0 {
        new.drop_last()
    } else {
        new
    }
}

/// The lines with an ending after the last one, where it has none.
spec fn closed_lines(ls: Seq<Seq<char>>, newline: Seq<char>) -> Seq<Seq<char>> {
    let n = ls.len() as int;
    if n > 0 && !crate::lines::ended(ls[n - 1]) {
        ls.update(n - 1, ls[n - 1] + newline)
    } else {
        ls
    }
}

proof fn newlines(ls: Seq<Seq<char>>)
    requires
        crate::lines::well_cut(ls),
    ensures
        newline_of(ls) == seq!['\n'] || newline_of(ls) == seq!['\r', '\n'],
{
    if ls.len() > 0 {
        assert(crate::lines::one_line(ls[0]));
        endings(ls[0]);
    }
}

#[verifier::spinoff_prover]
#[verifier::rlimit(60)]
proof fn lines_of_rewritten(
    source: Seq<char>,
    replacements: Seq<Seq<char>>,
    rules: Seq<RuleView>,
)
    requires
        replacements_hold(replacements, rules),
        mark_told(lines(source), replacements),
    ensures
        lines(rewritten(source, replacements)) == written_lines(lines(source), replacements),
{
    let ls = lines(source);
    crate::lines::lines_make_the_text(source);
    let new = rewritten_lines(ls, replacements);
    let body = unlines(new);
    let n = ls.len() as int;
    let used = rules_in(ls, n).len() as int;
    let newline = newline_of(ls);
    newlines(ls);
    assert forall|i: int| 0 <= i < n implies ({
        let l = #[trigger] new[i];
        &&& crate::lines::ended(ls[i]) ==> crate::lines::one_line(l) && crate::lines::ended(l)
        &&& !crate::lines::ended(ls[i]) ==> forall|j: int| 0 <= j < l.len() ==> l[j] != '\n'
        &&& rule_at(ls, i) is None || rules_in(ls, i).len() < rules.len() ==> l.len() > 0
    }) by {
        rewritten_line_holds(ls, replacements, rules, i);
    }
    assert forall|i: int| 0 <= i < n - 1 implies crate::lines::ended(#[trigger] new[i])
        && crate::lines::one_line(new[i]) by {
        assert(crate::lines::ended(ls[i]));
    }
    let all = written_lines(ls, replacements);
    if used >= rules.len() {
        let m = all.len() as int;
        if m < n {
            assert(unlines(new) =~= unlines(all));
        }
        assert forall|i: int| 0 <= i < m implies crate::lines::one_line(#[trigger] all[i]) by {
            assert(all[i] == new[i]);
            if i == n - 1 && !crate::lines::ended(ls[i]) {
                assert forall|j: int| 0 <= j < all[i].len() - 1 implies all[i][j] != '\n' by {}
            }
        }
        assert forall|i: int| 0 <= i < m - 1 implies crate::lines::ended(#[trigger] all[i]) by {
            assert(all[i] == new[i]);
        }
        crate::lines::lines_of_unlines(all);
        assert(rewritten(source, replacements) == body);
    } else {
        assert forall|i: int| 0 <= i < n implies (#[trigger] new[i]).len() > 0 by {
            rules_in_grows(ls, i, n);
        }
        let open = n > 0 && !crate::lines::ended(new[n - 1]);
        let out = closed_lines(new, newline);
        if n > 0 {
            assert(body.len() > 0 && body.last() == new[n - 1].last());
            assert(open ==> !crate::lines::ended(ls[n - 1]));
            assert(open <==> body.last() != '\n');
        }
        if open {
            closing_a_line_keeps_its_rule(new[n - 1], n == 1, newline);
            assert(out.drop_last() =~= new.drop_last());
            assert(unlines(out) =~= body + newline);
        }
        assert(unlines(out) =~= body + separator(body, newline));
        let added = added_lines(replacements, used, newline);
        assert forall|j: int| 0 <= j < added.len() implies crate::lines::one_line(
            #[trigger] added[j],
        ) && crate::lines::ended(added[j]) by {
            ended_text(replacements[used + j], newline);
        }
        assert forall|i: int| 0 <= i < all.len() implies crate::lines::one_line(#[trigger] all[i])
            && crate::lines::ended(all[i]) by {
            if i < n {
                if !(open && i == n - 1) {
                    assert(out[i] == new[i]);
                }
                if i == n - 1 && !open {
                    assert(crate::lines::ended(new[i]));
                    assert(crate::lines::ended(ls[i])) by {
                        if !crate::lines::ended(ls[i]) {
                            assert(new[i][new[i].len() - 1] != '\n');
                        }
                    }
                }
            } else {
                assert(all[i] == added[i - n]);
            }
        }
        crate::lines::lines_of_unlines(all);
        crate::lines::unlines_of_parts(out, added);
        assert(rewritten(source, replacements) =~= unlines(all));
    }
}

/// The part of the written lines that the lines of the document have become: each
/// holds the rule that its rewritten line holds, in the same words.
proof fn written_lines_hold(
    ls: Seq<Seq<char>>,
    replacements: Seq<Seq<char>>,
    rules: Seq<RuleView>,
    i: int,
)
    requires
        crate::lines::well_cut(ls),
        replacements_hold(replacements, rules),
        mark_told(ls, replacements),
        0 <= i < ls.len(),
        i < written_lines(ls, replacements).len(),
    ensures
        ({
            let line = written_lines(ls, replacements)[i];
            let k = rules_in(ls, i).len() as int;
            &&& line_rule(rule_text(line, i == 0)) == line_rule(
                rule_text(rewritten_line(ls, replacements, i), i == 0),
            )
            &&& rule_at(ls, i) is Some && k < rules.len() ==> rule_text(line, i == 0)
                == replacements[k]
        }),
{
    let new = rewritten_lines(ls, replacements);
    let n = ls.len() as int;
    let used = rules_in(ls, n).len() as int;
    rewritten_line_holds(ls, replacements, rules, i);
    let line = written_lines(ls, replacements)[i];
    if line != new[i] {
        assert(used < replacements.len() && i == n - 1 && !crate::lines::ended(new[i]));
        newlines(ls);
        rules_in_grows(ls, i, n);
        closing_a_line_keeps_its_rule(new[i], i == 0, newline_of(ls));
    }
}

/// What a dictionary holds after its rules have been replaced are exactly the
/// replacements, in their order.
pub proof fn rewritten_document_holds_the_rules(
    source: Seq<char>,
    replacements: Seq<Seq<char>>,
    rules: Seq<RuleView>,
)
    requires
        replacements_hold(replacements, rules),
        mark_told(lines(source), replacements),
    ensures
        document_rules(rewritten(source, replacements)) == rules,
{
    let ls = lines(source);
    crate::lines::lines_make_the_text(source);
    lines_of_rewritten(source, replacements, rules);
    let all = written_lines(ls, replacements);
    let n = ls.len() as int;
    let used = rules_in(ls, n).len() as int;
    assert(rules.take(rules.len() as int) =~= rules);
    if used >= rules.len() {
        let m = all.len() as int;
        assert forall|i: int| 0 <= i < m implies rule_at(all, i) == line_rule(
            rule_text(#[trigger] rewritten_line(ls, replacements, i), i == 0),
        ) by {
            written_lines_hold(ls, replacements, rules, i);
        }
        rules_of_rewritten(ls, replacements, rules, all, m);
        if m < n {
            rewritten_line_holds(ls, replacements, rules, n - 1);
            assert(rules_in(ls, n - 1).len() >= rules.len());
        }
    } else {
        let newline = newline_of(ls);
        newlines(ls);
        let out = closed_lines(rewritten_lines(ls, replacements), newline);
        let added = added_lines(replacements, used, newline);
        assert forall|i: int| 0 <= i < n implies rule_at(out, i) == line_rule(
            rule_text(#[trigger] rewritten_line(ls, replacements, i), i == 0),
        ) by {
            written_lines_hold(ls, replacements, rules, i);
            assert(all[i] == out[i]);
        }
        rules_of_rewritten(ls, replacements, rules, out, n);
        rules_of_added(replacements, rules, newline, out, used, rules.len() as int);
        assert(added.take(added.len() as int) =~= added);
    }
}

/// Every rule in the lines is written in the words of its replacement.
pub open spec fn holds_exactly(ls: Seq<Seq<char>>, replacements: Seq<Seq<char>>) -> bool {
    forall|i: int|
        0 <= i < ls.len() && #[trigger] rule_at(ls, i) is Some ==> rules_in(ls, i).len()
            < replacements.len() && rule_text(ls[i], i == 0) == replacements[rules_in(
            ls,
            i,
        ).len() as int]
}

/// The document holds its new rules in the words of the replacements.
#[verifier::spinoff_prover]
#[verifier::rlimit(60)]
proof fn rewritten_text_is_exact(
    source: Seq<char>,
    replacements: Seq<Seq<char>>,
    rules: Seq<RuleView>,
)
    requires
        replacements_hold(replacements, rules),
        mark_told(lines(source), replacements),
    ensures
        holds_exactly(lines(rewritten(source, replacements)), replacements),
{
    let ls = lines(source);
    crate::lines::lines_make_the_text(source);
    lines_of_rewritten(source, replacements, rules);
    let all = written_lines(ls, replacements);
    let n = ls.len() as int;
    let used = rules_in(ls, n).len() as int;
    let newline = newline_of(ls);
    newlines(ls);
    let out = closed_lines(rewritten_lines(ls, replacements), newline);
    let added = added_lines(replacements, used, newline);
    assert forall|i: int| 0 <= i < n && i < all.len() implies rule_at(all, i) == line_rule(
        rule_text(#[trigger] rewritten_line(ls, replacements, i), i == 0),
    ) by {
        written_lines_hold(ls, replacements, rules, i);
    }
    assert forall|i: int| 0 <= i < all.len() && #[trigger] rule_at(all, i) is Some implies rules_in(
        all,
        i,
    ).len() < replacements.len() && rule_text(all[i], i == 0) == replacements[rules_in(
        all,
        i,
    ).len() as int] by {
        if i < n {
            let line = rewritten_line(ls, replacements, i);
            written_lines_hold(ls, replacements, rules, i);
            rewritten_line_holds(ls, replacements, rules, i);
            rules_of_rewritten(ls, replacements, rules, all, i);
        } else {
            let j = i - n;
            assert forall|k: int| 0 <= k < n implies rule_at(out, k) == line_rule(
                rule_text(#[trigger] rewritten_line(ls, replacements, k), k == 0),
            ) by {
                written_lines_hold(ls, replacements, rules, k);
                assert(all[k] == out[k]);
            }
            rules_of_rewritten(ls, replacements, rules, out, n);
            rules_of_added(replacements, rules, newline, out, used, used + j);
            let part = out + added.take(j);
            rules_in_prefix(part, all, i);
            ended_text(replacements[used + j], newline);
            assert(all[i] == replacements[used + j] + newline);
        }
    }
}

/// A line is its mark, what it holds and its ending.
proof fn parts_of_line(l: Seq<char>, first: bool)
    ensures
        l == kept_mark(l, first) + rule_text(l, first) + line_ending(l),
{
    let c = line_content(l);
    assert(l =~= c + line_ending(l));
    if first && c.len() > 0 && c[0] == mark() {
        assert(c =~= seq![mark()] + c.skip(1));
    } else {
        assert(kept_mark(l, first) + rule_text(l, first) =~= c);
    }
}

/// Rules that are kept in their own words or taken out leave no line longer.
proof fn lines_shrink(ls: Seq<Seq<char>>, replacements: Seq<Seq<char>>, n: int)
    requires
        0 <= n <= ls.len(),
        forall|i: int|
            0 <= i < ls.len() && #[trigger] rule_at(ls, i) is Some && rules_in(ls, i).len()
                < replacements.len() ==> rule_text(ls[i], i == 0) == replacements[rules_in(
                ls,
                i,
            ).len() as int],
    ensures
        encode_utf8(unlines(rewritten_lines(ls, replacements).take(n))).len() <= encode_utf8(
            unlines(ls.take(n)),
        ).len(),
    decreases n,
{
    let new = rewritten_lines(ls, replacements);
    if n > 0 {
        lines_shrink(ls, replacements, n - 1);
        let i = n - 1;
        let l = ls[i];
        let first = i == 0;
        assert(new.take(n).drop_last() =~= new.take(i));
        assert(ls.take(n).drop_last() =~= ls.take(i));
        encoding_of_parts(unlines(new.take(i)), new[i]);
        encoding_of_parts(unlines(ls.take(i)), l);
        if rule_at(ls, i) is Some {
            parts_of_line(l, first);
            if rules_in(ls, i).len() < replacements.len() {
                assert(new[i] == l);
            } else {
                let kept = kept_mark(l, first);
                encoding_of_parts(kept, rule_text(l, first));
                encoding_of_parts(kept + rule_text(l, first), line_ending(l));
                encoding_of_parts(kept, line_ending(l));
            }
        }
    } else {
        assert(new.take(0) =~= ls.take(0));
    }
}

/// The first rules of a document in its own words, and no others, make it no larger.
proof fn taking_rules_out_shrinks(text: Seq<char>, replacements: Seq<Seq<char>>)
    requires
        replacements.len() <= document_rules(text).len(),
        forall|i: int|
            0 <= i < lines(text).len() && #[trigger] rule_at(lines(text), i) is Some && rules_in(
                lines(text),
                i,
            ).len() < replacements.len() ==> rule_text(lines(text)[i], i == 0)
                == replacements[rules_in(lines(text), i).len() as int],
    ensures
        encode_utf8(rewritten(text, replacements)).len() <= encode_utf8(text).len(),
{
    let ls = lines(text);
    crate::lines::lines_make_the_text(text);
    lines_shrink(ls, replacements, ls.len() as int);
    assert(ls.take(ls.len() as int) =~= ls);
    let new = rewritten_lines(ls, replacements);
    assert(new.take(new.len() as int) =~= new);
}

/// An edit that only took rules on can be taken back: the entries that were there
/// before it are accepted, and the document is no larger with them than it was with
/// all of them.
pub proof fn rules_that_were_added_can_be_taken_out(
    source: Seq<char>,
    entries: Seq<Seq<char>>,
    n: int,
    limits: Limits,
)
    requires
        normalized(entries, limits) is Ok,
        0 <= n <= entries.len(),
        n > 0 ==> mark_told(lines(source), normalized(entries, limits)->Ok_0),
    ensures
        ({
            let text = rewritten(source, normalized(entries, limits)->Ok_0);
            let earlier = normalized(entries.take(n), limits);
            &&& earlier == Ok::<Seq<Seq<char>>, DictionaryError>(
                normalized(entries, limits)->Ok_0.take(n),
            )
            &&& encode_utf8(rewritten(text, earlier->Ok_0)).len() <= encode_utf8(text).len()
        }),
{
    let all = normalized(entries, limits)->Ok_0;
    let text = rewritten(source, all);
    normalized_prefix(entries, n, limits);
    let ls = lines(text);
    if n > 0 {
        let rules = entries.map_values(|e: Seq<char>| line_rule(e)->0);
        normalized_lines_hold(entries, limits);
        rewritten_document_holds_the_rules(source, all, rules);
        rewritten_text_is_exact(source, all, rules);
    }
    assert forall|i: int|
        0 <= i < ls.len() && #[trigger] rule_at(ls, i) is Some && rules_in(ls, i).len()
            < all.take(n).len() implies rule_text(ls[i], i == 0) == all.take(n)[rules_in(
        ls,
        i,
    ).len() as int] by {}
    taking_rules_out_shrinks(text, all.take(n));
}

proof fn normalized_lines_hold(entries: Seq<Seq<char>>, limits: Limits)
    requires
        normalized(entries, limits) is Ok,
    ensures
        replacements_hold(
            normalized(entries, limits)->Ok_0,
            entries.map_values(|e: Seq<char>| line_rule(e)->0),
        ),
{
    let out = normalized(entries, limits)->Ok_0;
    let rules = entries.map_values(|e: Seq<char>| line_rule(e)->0);
    first_fault_range(entries, limits, 0);
    entries_hold(entries, limits, 0);
    assert forall|j: int| 0 <= j < rules.len() implies ({
        &&& line_rule(#[trigger] out[j]) == Some(rules[j])
        &&& out[j].len() > 0
        &&& !white(out[j].last())
        &&& !breaks(out[j])
    }) by {
        assert(entry_fault(entries, j, limits) is None);
        written_rule_reads_back(entries[j]);
    }
}

/// The first of entries that are accepted are accepted.
proof fn normalized_prefix(entries: Seq<Seq<char>>, n: int, limits: Limits)
    requires
        normalized(entries, limits) is Ok,
        0 <= n <= entries.len(),
    ensures
        normalized(entries.take(n), limits) == Ok::<Seq<Seq<char>>, DictionaryError>(
            normalized(entries, limits)->Ok_0.take(n),
        ),
{
    first_fault_range(entries, limits, 0);
    entries_hold(entries, limits, 0);
    let few = entries.take(n);
    assert forall|i: int| 0 <= i < n implies #[trigger] entry_fault(few, i, limits) is None by {
        assert(entry_fault(entries, i, limits) is None);
        assert(few[i] == entries[i]);
        written_bytes_of_prefix(entries, n, i + 1);
    }
    no_fault(few, limits, 0);
    assert(normalized(few, limits)->Ok_0 =~= normalized(entries, limits)->Ok_0.take(n));
}

proof fn written_bytes_of_prefix(entries: Seq<Seq<char>>, n: int, i: int)
    requires
        0 <= i <= n <= entries.len(),
    ensures
        written_bytes(entries.take(n), i) == written_bytes(entries, i),
    decreases i,
{
    if i > 0 {
        written_bytes_of_prefix(entries, n, i - 1);
        assert(entries.take(n)[i - 1] == entries[i - 1]);
    }
}

proof fn no_fault(entries: Seq<Seq<char>>, limits: Limits, i: int)
    requires
        0 <= i <= entries.len(),
        forall|j: int| i <= j < entries.len() ==> #[trigger] entry_fault(entries, j, limits) is None,
    ensures
        first_fault(entries, i, limits) == entries.len(),
    decreases entries.len() - i,
{
    if i < entries.len() {
        assert(entry_fault(entries, i, limits) is None);
        no_fault(entries, limits, i + 1);
    }
}

/// What an edit has saved is what the next read gives: the rules of its
/// entries, in their order. (What reads back otherwise is a first entry that begins
/// with a byte order mark and comes to stand at the very start of the text.)
pub proof fn saved_rules_read_back(source: Seq<char>, entries: Seq<Seq<char>>, limits: Limits)
    requires
        normalized(entries, limits) is Ok,
        mark_told(lines(source), normalized(entries, limits)->Ok_0),
    ensures
        document_rules(rewritten(source, normalized(entries, limits)->Ok_0)) == entries.map_values(
            |e: Seq<char>| line_rule(e)->0,
        ),
        parsed(rewritten(source, normalized(entries, limits)->Ok_0), limits) == Ok::<
            Seq<RuleView>,
            DictionaryError,
        >(entries.map_values(|e: Seq<char>| line_rule(e)->0)),
{
    let out = normalized(entries, limits)->Ok_0;
    let rules = entries.map_values(|e: Seq<char>| line_rule(e)->0);
    first_fault_range(entries, limits, 0);
    entries_hold(entries, limits, 0);
    normalized_lines_hold(entries, limits);
    rewritten_document_holds_the_rules(source, out, rules);
    let p = |r: RuleView| side_fault(r, limits) is Some;
    assert forall|j: int| 0 <= j < rules.len() implies !p(#[trigger] rules[j]) by {
        assert(entry_fault(entries, j, limits) is None);
    }
    crate::seqs::first_where_is_first(rules, p, 0);
}

proof fn entries_hold(entries: Seq<Seq<char>>, limits: Limits, i: int)
    requires
        0 <= i <= entries.len(),
        first_fault(entries, i, limits) == entries.len(),
    ensures
        forall|j: int| i <= j < entries.len() ==> #[trigger] entry_fault(entries, j, limits) is None,
    decreases entries.len() - i,
{
    if i < entries.len() {
        first_fault_range(entries, limits, i + 1);
        entries_hold(entries, limits, i + 1);
    }
}

proof fn first_fault_range(entries: Seq<Seq<char>>, limits: Limits, i: int)
    requires
        0 <= i <= entries.len(),
    ensures
        i <= first_fault(entries, i, limits) <= entries.len(),
    decreases entries.len() - i,
{
    if i < entries.len() {
        first_fault_range(entries, limits, i + 1);
    }
}

/// The entries are written as single lines.
pub proof fn entries_are_written_as_single_lines(entries: Seq<Seq<char>>, limits: Limits)
    requires
        normalized(entries, limits) is Ok,
    ensures
        forall|j: int|
            0 <= j < entries.len() ==> !breaks(#[trigger] normalized(entries, limits)->Ok_0[j]),
        normalized(entries, limits)->Ok_0.len() == entries.len(),
{
    first_fault_range(entries, limits, 0);
    entries_hold(entries, limits, 0);
    assert forall|j: int| 0 <= j < entries.len() implies !breaks(
        #[trigger] normalized(entries, limits)->Ok_0[j],
    ) by {
        assert(entry_fault(entries, j, limits) is None);
        written_rule_reads_back(entries[j]);
    }
}

/// A line that is followed by another is one after it has been rewritten, too.
proof fn rewritten_line_ends(ls: Seq<Seq<char>>, replacements: Seq<Seq<char>>, i: int)
    requires
        crate::lines::well_cut(ls),
        0 <= i < ls.len(),
        crate::lines::ended(ls[i]),
        forall|j: int| 0 <= j < replacements.len() ==> !breaks(#[trigger] replacements[j]),
    ensures
        crate::lines::one_line(rewritten_line(ls, replacements, i)),
        crate::lines::ended(rewritten_line(ls, replacements, i)),
{
    let l = ls[i];
    let k = rules_in(ls, i).len() as int;
    assert(crate::lines::one_line(l));
    endings(l);
    if rule_at(ls, i) is Some {
        let kept = kept_mark(l, i == 0);
        let body = if k < replacements.len() {
            kept + replacements[k]
        } else {
            kept
        };
        assert(rewritten_line(ls, replacements, i) =~= body + line_ending(l));
        assert forall|j: int| 0 <= j < body.len() implies #[trigger] body[j] != '\r' && body[j]
            != '\n' by {
            if j >= kept.len() {
                assert(body[j] == replacements[k][j - kept.len()]);
                assert(!breaks(replacements[k]));
            }
        }
        ended_text(body, line_ending(l));
    }
}

/// The lines of a text that begins with whole lines are these, then those of the rest.
proof fn lines_after_whole_lines(front: Seq<Seq<char>>, rest: Seq<char>)
    requires
        forall|i: int|
            0 <= i < front.len() ==> crate::lines::one_line(#[trigger] front[i])
                && crate::lines::ended(front[i]),
    ensures
        lines(unlines(front) + rest) == front + lines(rest),
{
    crate::lines::lines_make_the_text(rest);
    let all = front + lines(rest);
    assert(crate::lines::well_cut(all));
    crate::lines::lines_of_unlines(all);
    crate::lines::unlines_of_parts(front, lines(rest));
}

/// An edit leaves every line that holds no rule as it is, character for character
/// and at its place in the text that is written. Only a last line without a line
/// ending gets one, where rules are added after it.
pub proof fn other_lines_stay(source: Seq<char>, replacements: Seq<Seq<char>>, i: int)
    requires
        0 <= i < lines(source).len(),
        rule_at(lines(source), i) is None,
        forall|j: int| 0 <= j < replacements.len() ==> !breaks(#[trigger] replacements[j]),
    ensures
        ({
            let ls = lines(source);
            let out = lines(rewritten(source, replacements));
            &&& i < out.len()
            &&& out[i] == (if !crate::lines::ended(ls[i]) && document_rules(source).len()
                < replacements.len() {
                ls[i] + newline_of(ls)
            } else {
                ls[i]
            })
        }),
{
    let ls = lines(source);
    crate::lines::lines_make_the_text(source);
    let new = rewritten_lines(ls, replacements);
    let n = ls.len() as int;
    let body = unlines(new);
    let newline = newline_of(ls);
    let used = document_rules(source).len() as int;
    let added = if used < replacements.len() {
        separator(body, newline) + unlines(added_lines(replacements, used, newline))
    } else {
        Seq::empty()
    };
    assert(rewritten(source, replacements) =~= body + added);
    let front = new.take(i);
    let after = new.skip(i + 1);
    assert forall|k: int| 0 <= k < front.len() implies crate::lines::one_line(#[trigger] front[k])
        && crate::lines::ended(front[k]) by {
        assert(crate::lines::ended(ls[k]));
        rewritten_line_ends(ls, replacements, k);
    }
    assert(new =~= front + (seq![new[i]] + after));
    crate::lines::unlines_of_parts(front, seq![new[i]] + after);
    crate::lines::unlines_of_front(new[i], after);
    assert(new[i] == ls[i]);
    let more = unlines(after) + added;
    let rest = ls[i] + more;
    assert(body + added =~= unlines(front) + rest);
    lines_after_whole_lines(front, rest);
    assert(crate::lines::one_line(ls[i]));
    endings(ls[i]);
    if crate::lines::ended(ls[i]) {
        whole_first_line(ls[i], more);
    } else {
        assert(i == n - 1);
        assert(after =~= Seq::<Seq<char>>::empty());
        assert(more =~= added);
        if used < replacements.len() {
            endings(ls[0]);
            assert(crate::lines::one_line(ls[0]));
            assert(unlines(new.take(n - 1)) + ls[i] =~= body);
            assert(new.drop_last() =~= new.take(n - 1));
            assert(body.last() == ls[i].last());
            assert(separator(body, newline) == newline);
            let closed = ls[i] + newline;
            let tail = unlines(added_lines(replacements, used, newline));
            assert(rest =~= closed + tail);
            closing_a_line_keeps_its_rule(ls[i], i == 0, newline);
            whole_first_line(closed, tail);
        } else {
            assert(rest =~= ls[i]);
            assert(unlines(seq![ls[i]].drop_last()) =~= Seq::<char>::empty());
            assert(unlines(seq![ls[i]]) =~= ls[i]);
            crate::lines::lines_of_unlines(seq![ls[i]]);
        }
    }
}

proof fn whole_first_line(l: Seq<char>, more: Seq<char>)
    requires
        crate::lines::one_line(l),
        crate::lines::ended(l),
    ensures
        lines(l + more).len() > 0,
        lines(l + more)[0] == l,
{
    assert(unlines(seq![l].drop_last()) =~= Seq::<char>::empty());
    assert(unlines(seq![l]) =~= l);
    lines_after_whole_lines(seq![l], more);
}

/// An edit keeps the byte order mark of a document.
pub proof fn byte_order_mark_stays(source: Seq<char>, replacements: Seq<Seq<char>>)
    requires
        source.len() > 0,
        source[0] == mark(),
    ensures
        rewritten(source, replacements).len() > 0,
        rewritten(source, replacements)[0] == mark(),
{
    let ls = lines(source);
    crate::lines::lines_make_the_text(source);
    let new = rewritten_lines(ls, replacements);
    assert(ls =~= seq![ls[0]] + ls.skip(1));
    crate::lines::unlines_of_front(ls[0], ls.skip(1));
    assert(crate::lines::one_line(ls[0]));
    assert(ls[0][0] == mark());
    let c = line_content(ls[0]);
    assert(c.len() > 0 && c[0] == mark());
    assert(new =~= seq![new[0]] + new.skip(1));
    crate::lines::unlines_of_front(new[0], new.skip(1));
    assert(new[0].len() > 0 && new[0][0] == mark());
    assert(unlines(new)[0] == mark());
}

/// A document that begins with the mark keeps it apart from its first line.
proof fn mark_is_kept_apart(text: Seq<char>)
    requires
        text.len() > 0,
        text[0] == mark(),
    ensures
        lines(text).len() > 0,
        kept_mark(lines(text)[0], true).len() > 0,
{
    let ls = lines(text);
    crate::lines::lines_make_the_text(text);
    assert(ls =~= seq![ls[0]] + ls.skip(1));
    crate::lines::unlines_of_front(ls[0], ls.skip(1));
    assert(crate::lines::one_line(ls[0]));
    assert(ls[0][0] == mark());
    let c = line_content(ls[0]);
    assert(c.len() > 0 && c[0] == mark());
}

/// After an edit the document takes another first line as it did before it, and it
/// takes any where the edit itself began with the mark.
pub proof fn an_edit_keeps_marks_told(
    source: Seq<char>,
    replacements: Seq<Seq<char>>,
    further: Seq<Seq<char>>,
)
    requires
        forall|j: int| 0 <= j < replacements.len() ==> !breaks(#[trigger] replacements[j]),
        mark_told(lines(source), further) || (replacements.len() > 0 && replacements[0].len() > 0
            && replacements[0][0] == mark()),
    ensures
        mark_told(lines(rewritten(source, replacements)), further),
{
    let ls = lines(source);
    let text = rewritten(source, replacements);
    crate::lines::lines_make_the_text(source);
    newlines(ls);
    if ls.len() > 0 && rule_at(ls, 0) is None {
        other_lines_stay(source, replacements, 0);
        if !crate::lines::ended(ls[0]) {
            assert(crate::lines::one_line(ls[0]));
            endings(ls[0]);
            closing_a_line_keeps_its_rule(ls[0], true, newline_of(ls));
        }
    } else if ls.len() > 0 && kept_mark(ls[0], true).len() > 0 {
        assert(ls =~= seq![ls[0]] + ls.skip(1));
        crate::lines::unlines_of_front(ls[0], ls.skip(1));
        assert(source[0] == mark());
        byte_order_mark_stays(source, replacements);
        mark_is_kept_apart(text);
    } else if replacements.len() > 0 && replacements[0].len() > 0 && replacements[0][0] == mark() {
        if ls.len() > 0 {
            let new = rewritten_lines(ls, replacements);
            assert(rules_in(ls, 0).len() == 0);
            assert(new[0][0] == mark());
            assert(new =~= seq![new[0]] + new.skip(1));
            crate::lines::unlines_of_front(new[0], new.skip(1));
            assert(unlines(new)[0] == mark());
        } else {
            let newline = newline_of(ls);
            let added = added_lines(replacements, 0, newline);
            assert(rewritten_lines(ls, replacements) =~= Seq::<Seq<char>>::empty());
            assert(added =~= seq![added[0]] + added.skip(1));
            crate::lines::unlines_of_front(added[0], added.skip(1));
            assert(text =~= unlines(added));
            assert(added[0][0] == mark());
        }
        assert(text.len() > 0 && text[0] == mark());
        mark_is_kept_apart(text);
    }
}

/// The digest of the exact bytes of a document. An edit is bound to it.
#[derive(Debug, PartialEq, Eq)]
pub struct RulesRevision(String);

impl View for RulesRevision {
    type V = Seq<char>;

    closed spec fn view(&self) -> Seq<char> {
        self.0@
    }
}

impl Clone for RulesRevision {
    fn clone(&self) -> (r: Self)
        ensures
            r@ == self@,
    {
        RulesRevision(self.0.clone())
    }
}

impl RulesRevision {
    /// The revision of a document.
    pub fn from_bytes(source: &[u8]) -> (r: Self)
        ensures
            r@ == sha256_hex(source@),
            digest_form(r@),
    {
        RulesRevision(sha256_text(source))
    }

    /// The revision as a text.
    pub fn as_str(&self) -> (r: &str)
        ensures
            r@ == self@,
    {
        self.0.as_str()
    }

    /// The revision that a text names: sixty-four lower-case hexadecimal digits.
    pub fn parse(value: &str) -> (r: Result<Self, &'static str>)
        ensures
            r is Ok <==> digest_form(value@),
            r is Ok ==> r->Ok_0@ == value@,
            r is Err ==> r->Err_0@
                == "dictionary revision is invalid; reload Dictionary and try again"@,
    {
        if is_digest_form(value) {
            Ok(RulesRevision(value.to_owned()))
        } else {
            Err("dictionary revision is invalid; reload Dictionary and try again")
        }
    }
}

/// A dictionary as it was read: what the engine applies, and what a later edit
/// is bound to.
#[derive(Debug, PartialEq, Eq)]
pub struct RulesDocument {
    pub rules: Vec<Rule>,
    pub revision: RulesRevision,
}

/// Why a document is refused.
#[derive(Debug, PartialEq, Eq)]
pub enum DocumentError {
    TooLarge { max: usize },
    /// With the words of the decoder.
    NotUtf8(String),
    Rules(DictionaryError),
}

/// `String::from_utf8`: the text that the bytes encode, if they are valid
/// UTF-8. What the words of the error are is left open.
#[verifier::external_body]
pub(crate) fn utf8_text(bytes: Vec<u8>) -> (r: Result<String, String>)
    ensures
        r is Ok <==> valid_utf8(bytes@),
        r is Ok ==> encode_utf8(r->Ok_0@) == bytes@,
{
    String::from_utf8(bytes).map_err(|error| error.to_string())
}

/// The text that a valid UTF-8 byte string encodes.
pub open spec fn text_in(bytes: Seq<u8>) -> Seq<char> {
    vstd::utf8::decode_utf8(bytes)
}

/// The bytes hold a dictionary.
pub open spec fn readable(bytes: Seq<u8>, limits: Limits) -> bool {
    &&& bytes.len() <= limits.max_document_bytes
    &&& valid_utf8(bytes)
    &&& parsed(text_in(bytes), limits) is Ok
}

/// The bytes hold no dictionary, for that reason.
pub open spec fn refused(bytes: Seq<u8>, limits: Limits, e: DocumentError) -> bool {
    match e {
        DocumentError::TooLarge { max } => bytes.len() > limits.max_document_bytes && max
            == limits.max_document_bytes,
        DocumentError::NotUtf8(_) => bytes.len() <= limits.max_document_bytes && !valid_utf8(bytes),
        DocumentError::Rules(e) => {
            &&& bytes.len() <= limits.max_document_bytes
            &&& valid_utf8(bytes)
            &&& parsed(text_in(bytes), limits) == Err::<Seq<RuleView>, DictionaryError>(e)
        },
    }
}

/// Reads a dictionary out of the bytes of its file.
pub fn rules_document_from_bytes(source: Vec<u8>, limits: &Limits) -> (r: Result<
    RulesDocument,
    DocumentError,
>)
    ensures
        match r {
            Ok(d) => {
                &&& source@.len() <= limits.max_document_bytes
                &&& valid_utf8(source@)
                &&& parsed(text_in(source@), *limits) == Ok::<Seq<RuleView>, DictionaryError>(
                    rules_view(d.rules@),
                )
                &&& d.revision@ == sha256_hex(source@)
                &&& digest_form(d.revision@)
            },
            Err(e) => refused(source@, *limits, e),
        },
{
    if source.len() > limits.max_document_bytes {
        return Err(DocumentError::TooLarge { max: limits.max_document_bytes });
    }
    let revision = RulesRevision::from_bytes(&source);
    let content = match utf8_text(source) {
        Ok(content) => content,
        Err(words) => {
            return Err(DocumentError::NotUtf8(words));
        },
    };
    proof {
        vstd::utf8::encode_utf8_decode_utf8(content@);
    }
    match parse_rules(&content, limits) {
        Ok(rules) => Ok(RulesDocument { rules, revision }),
        Err(e) => Err(DocumentError::Rules(e)),
    }
}

/// Why an edit is not saved.
#[derive(Debug, PartialEq, Eq)]
pub enum RulesSaveError {
    /// The file is not the one that was read.
    Conflict,
    Document(DocumentError),
    Rules(DictionaryError),
}

impl RulesSaveError {
    /// Has the file changed since it was read?
    pub fn is_conflict(&self) -> (r: bool)
        ensures
            r == (*self is Conflict),
    {
        match self {
            RulesSaveError::Conflict => true,
            _ => false,
        }
    }
}

/// The text that replaces the file, with the entries as they are written.
fn replacement_source(
    source: &[u8],
    expected: &RulesRevision,
    normalized_lines: &[String],
    limits: &Limits,
) -> (r: Result<String, RulesSaveError>)
    ensures
        match r {
            Ok(out) => {
                &&& readable(source@, *limits)
                &&& sha256_hex(source@) == expected@
                &&& out@ == rewritten(text_in(source@), texts(normalized_lines@))
                &&& encode_utf8(out@).len() <= limits.max_document_bytes
            },
            Err(RulesSaveError::Conflict) => readable(source@, *limits) && sha256_hex(source@)
                != expected@,
            Err(RulesSaveError::Document(e)) => refused(source@, *limits, e),
            Err(RulesSaveError::Rules(e)) => {
                &&& readable(source@, *limits)
                &&& sha256_hex(source@) == expected@
                &&& e == (DictionaryError::RewriteTooLarge { max: limits.max_document_bytes })
                &&& encode_utf8(rewritten(text_in(source@), texts(normalized_lines@))).len()
                    > limits.max_document_bytes
            },
        },
{
    let current = match rules_document_from_bytes(vstd::slice::slice_to_vec(source), limits) {
        Ok(document) => document,
        Err(e) => {
            return Err(RulesSaveError::Document(e));
        },
    };
    if !same(current.revision.as_str(), expected.as_str()) {
        return Err(RulesSaveError::Conflict);
    }
    let content = match utf8_text(vstd::slice::slice_to_vec(source)) {
        Ok(content) => content,
        Err(words) => {
            return Err(RulesSaveError::Document(DocumentError::NotUtf8(words)));
        },
    };
    proof {
        vstd::utf8::encode_utf8_decode_utf8(content@);
    }
    match rewrite_rules_source_normalized(&content, normalized_lines, limits) {
        Ok(out) => Ok(out),
        Err(e) => Err(RulesSaveError::Rules(e)),
    }
}

/// What an edit leaves: the text that is to be written, and what that text reads as.
#[derive(Debug, PartialEq, Eq)]
pub struct SavedRules {
    pub text: String,
    pub document: Result<RulesDocument, DocumentError>,
}

/// The edit is one of this file: the file is readable, and it is the one that the
/// edit is bound to.
pub open spec fn current(source: Seq<u8>, expected: Seq<char>, limits: Limits) -> bool {
    readable(source, limits) && sha256_hex(source) == expected
}

/// `r` is what an edit of the file comes to.
pub open spec fn saved(
    source: Seq<u8>,
    expected: Seq<char>,
    entries: Seq<Seq<char>>,
    limits: Limits,
    r: Result<SavedRules, RulesSaveError>,
) -> bool {
    match normalized(entries, limits) {
        Err(e) => r == Err::<SavedRules, RulesSaveError>(RulesSaveError::Rules(e)),
        Ok(lines) => {
            let out = rewritten(text_in(source), lines);
            match r {
                Ok(s) => {
                    &&& current(source, expected, limits)
                    &&& s.text@ == out
                    &&& encode_utf8(out).len() <= limits.max_document_bytes
                    &&& match s.document {
                        Ok(d) => parsed(out, limits) == Ok::<Seq<RuleView>, DictionaryError>(
                            rules_view(d.rules@),
                        ) && d.revision@ == sha256_hex(encode_utf8(out)) && digest_form(
                            d.revision@,
                        ),
                        Err(DocumentError::Rules(e)) => parsed(out, limits) == Err::<
                            Seq<RuleView>,
                            DictionaryError,
                        >(e),
                        Err(_) => false,
                    }
                },
                Err(RulesSaveError::Conflict) => readable(source, limits) && sha256_hex(source)
                    != expected,
                Err(RulesSaveError::Document(e)) => refused(source, limits, e),
                Err(RulesSaveError::Rules(e)) => {
                    &&& current(source, expected, limits)
                    &&& e == (DictionaryError::RewriteTooLarge { max: limits.max_document_bytes })
                    &&& encode_utf8(out).len() > limits.max_document_bytes
                },
            }
        },
    }
}

/// The file that an edit leaves, given the lines as the person wrote them and the
/// file that is on disk while the writers' lock is held. Lines that are no rules are
/// refused before anything else; where the file is not the one that the edit is
/// bound to, nothing is to be written.
pub fn save_rules_document_if_current(
    source: &[u8],
    expected: &RulesRevision,
    lines: &[String],
    limits: &Limits,
) -> (r: Result<SavedRules, RulesSaveError>)
    ensures
        saved(source@, expected@, texts(lines@), *limits, r),
{
    let normalized_lines = match normalize_rule_lines(lines, limits) {
        Ok(normalized_lines) => normalized_lines,
        Err(e) => {
            return Err(RulesSaveError::Rules(e));
        },
    };
    let text = match replacement_source(source, expected, &normalized_lines, limits) {
        Ok(text) => text,
        Err(e) => {
            return Err(e);
        },
    };
    proof {
        vstd::utf8::encode_utf8_decode_utf8(text@);
        vstd::utf8::encode_utf8_valid_utf8(text@);
    }
    let document = rules_document_from_bytes(text.as_str().as_bytes_vec(), limits);
    Ok(SavedRules { text, document })
}

/// An edit that is bound to another revision than the file's is never written: no
/// change that was made in between is lost.
pub proof fn stale_edits_change_nothing(
    source: Seq<u8>,
    expected: Seq<char>,
    entries: Seq<Seq<char>>,
    limits: Limits,
    r: Result<SavedRules, RulesSaveError>,
)
    requires
        saved(source, expected, entries, limits, r),
        sha256_hex(source) != expected,
    ensures
        r is Err,
        readable(source, limits) && normalized(entries, limits) is Ok ==> r->Err_0 is Conflict,
{
}

/// What an edit has written is what is read of it: the rules of its entries, in their
/// order. (What reads back otherwise is a first entry that begins with a byte order
/// mark and comes to stand at the very start of the text.)
pub proof fn an_edit_reads_back(
    source: Seq<u8>,
    expected: Seq<char>,
    entries: Seq<Seq<char>>,
    limits: Limits,
    r: Result<SavedRules, RulesSaveError>,
)
    requires
        saved(source, expected, entries, limits, r),
        r is Ok,
        mark_told(lines(text_in(source)), normalized(entries, limits)->Ok_0),
    ensures
        r->Ok_0.document is Ok,
        rules_view(r->Ok_0.document->Ok_0.rules@) == entries.map_values(
            |e: Seq<char>| line_rule(e)->0,
        ),
{
    saved_rules_read_back(text_in(source), entries, limits);
}

/// The keys by which rules are told apart: what is heard, in lower case.
pub open spec fn heard_keys(rules: Seq<RuleView>) -> Seq<Seq<char>> {
    rules.map_values(|r: RuleView| unicode_lowercase(r.0))
}

/// The rules with one more, unless its key is there already.
pub open spec fn with_rule(rules: Seq<RuleView>, r: RuleView) -> Seq<RuleView> {
    if heard_keys(rules).contains(unicode_lowercase(r.0)) {
        rules
    } else {
        rules.push(r)
    }
}

/// The first `n` of the person's own rules, the first of each key.
pub open spec fn own_rules(user: Seq<RuleView>, n: int) -> Seq<RuleView>
    decreases n,
{
    if n <= 0 {
        Seq::empty()
    } else {
        with_rule(own_rules(user, n - 1), user[n - 1])
    }
}

/// The rules with the first `n` built-in ones after them, as far as their keys
/// are free and the rules stay below the limit.
pub open spec fn filled_up(
    rules: Seq<RuleView>,
    defaults: Seq<RuleView>,
    n: int,
    max: nat,
) -> Seq<RuleView>
    decreases n,
{
    if n <= 0 {
        rules
    } else {
        let before = filled_up(rules, defaults, n - 1, max);
        if before.len() >= max {
            before
        } else {
            with_rule(before, defaults[n - 1])
        }
    }
}

/// The person's own rules over the built-in ones.
pub open spec fn merged(user: Seq<RuleView>, defaults: Seq<RuleView>, max: nat) -> Seq<RuleView> {
    filled_up(own_rules(user, user.len() as int), defaults, defaults.len() as int, max)
}

/// No two rules have the same key.
pub open spec fn distinct_keys(rules: Seq<RuleView>) -> bool {
    heard_keys(rules).no_duplicates()
}

proof fn with_rule_stays_distinct(rules: Seq<RuleView>, r: RuleView)
    requires
        distinct_keys(rules),
    ensures
        distinct_keys(with_rule(rules, r)),
        rules.len() <= with_rule(rules, r).len() <= rules.len() + 1,
        with_rule(rules, r).take(rules.len() as int) == rules,
        heard_keys(with_rule(rules, r)).contains(unicode_lowercase(r.0)),
{
    let grown = with_rule(rules, r);
    let keys = heard_keys(rules);
    assert(grown.take(rules.len() as int) =~= rules);
    if !keys.contains(unicode_lowercase(r.0)) {
        assert(heard_keys(grown) =~= keys.push(unicode_lowercase(r.0)));
        assert(heard_keys(grown)[rules.len() as int] == unicode_lowercase(r.0));
    }
}

proof fn own_rules_distinct(user: Seq<RuleView>, n: int)
    requires
        0 <= n <= user.len(),
    ensures
        distinct_keys(own_rules(user, n)),
        own_rules(user, n).len() <= n,
        forall|i: int|
            0 <= i < n ==> heard_keys(own_rules(user, n)).contains(
                unicode_lowercase((#[trigger] user[i]).0),
            ),
    decreases n,
{
    if n > 0 {
        own_rules_distinct(user, n - 1);
        with_rule_stays_distinct(own_rules(user, n - 1), user[n - 1]);
        let before = own_rules(user, n - 1);
        let after = own_rules(user, n);
        assert forall|i: int| 0 <= i < n implies heard_keys(after).contains(
            unicode_lowercase((#[trigger] user[i]).0),
        ) by {
            if i < n - 1 {
                let key = unicode_lowercase(user[i].0);
                let k = choose|k: int|
                    0 <= k < heard_keys(before).len() && heard_keys(before)[k] == key;
                assert(before[k] == after.take(before.len() as int)[k]);
                assert(heard_keys(after)[k] == key);
            }
        }
    }
}

proof fn filled_up_keeps(rules: Seq<RuleView>, defaults: Seq<RuleView>, n: int, max: nat)
    requires
        distinct_keys(rules),
        0 <= n <= defaults.len(),
    ensures
        distinct_keys(filled_up(rules, defaults, n, max)),
        filled_up(rules, defaults, n, max).len() >= rules.len(),
        filled_up(rules, defaults, n, max).take(rules.len() as int) == rules,
        filled_up(rules, defaults, n, max).len() <= max || filled_up(rules, defaults, n, max)
            == rules,
    decreases n,
{
    let all = filled_up(rules, defaults, n, max);
    if n > 0 {
        filled_up_keeps(rules, defaults, n - 1, max);
        let before = filled_up(rules, defaults, n - 1, max);
        with_rule_stays_distinct(before, defaults[n - 1]);
        assert(all.take(rules.len() as int) =~= before.take(rules.len() as int));
    } else {
        assert(all.take(rules.len() as int) =~= rules);
    }
}

/// The person's own rules come first and win over built-in ones with the same
/// key; no key occurs twice; and the built-in rules never push the list past
/// the limit.
pub proof fn own_rules_win(user: Seq<RuleView>, defaults: Seq<RuleView>, max: nat)
    ensures
        distinct_keys(merged(user, defaults, max)),
        merged(user, defaults, max).len() <= max || merged(user, defaults, max) == own_rules(
            user,
            user.len() as int,
        ),
        user.len() <= max ==> merged(user, defaults, max).len() <= max,
        merged(user, defaults, max).len() >= own_rules(user, user.len() as int).len(),
        merged(user, defaults, max).take(own_rules(user, user.len() as int).len() as int)
            == own_rules(user, user.len() as int),
        forall|i: int|
            0 <= i < user.len() ==> heard_keys(own_rules(user, user.len() as int)).contains(
                unicode_lowercase((#[trigger] user[i]).0),
            ),
{
    own_rules_distinct(user, user.len() as int);
    filled_up_keeps(
        own_rules(user, user.len() as int),
        defaults,
        defaults.len() as int,
        max,
    );
}

/// The rule is the first one of its key in the list.
pub open spec fn first_of_key(rules: Seq<RuleView>, i: int) -> bool {
    &&& 0 <= i < rules.len()
    &&& forall|j: int|
        0 <= j < i ==> unicode_lowercase((#[trigger] rules[j]).0) != unicode_lowercase(rules[i].0)
}

/// Some rule of the list is heard like `from`.
pub open spec fn hears(rules: Seq<RuleView>, from: Seq<char>) -> bool {
    exists|i: int|
        0 <= i < rules.len() && unicode_lowercase((#[trigger] rules[i]).0) == unicode_lowercase(from)
}

proof fn hears_by_key(rules: Seq<RuleView>, from: Seq<char>)
    ensures
        hears(rules, from) == heard_keys(rules).contains(unicode_lowercase(from)),
{
    let keys = heard_keys(rules);
    if hears(rules, from) {
        let i = choose|i: int|
            0 <= i < rules.len() && unicode_lowercase((#[trigger] rules[i]).0)
                == unicode_lowercase(from);
        assert(keys[i] == unicode_lowercase(from));
    }
    if keys.contains(unicode_lowercase(from)) {
        let i = choose|i: int| 0 <= i < keys.len() && keys[i] == unicode_lowercase(from);
        assert(unicode_lowercase(rules[i].0) == unicode_lowercase(from));
    }
}

/// `out` is the list `all` without the rules whose key an earlier rule has: each of
/// its rules is the first of its key in `all`, in the order of `all`, and none of
/// those is missing.
spec fn firsts_of(all: Seq<RuleView>, out: Seq<RuleView>) -> bool {
    &&& forall|i: int| #[trigger]
        first_of_key(all, i) ==> out.contains(all[i])
    &&& forall|i: int| 0 <= i < all.len() ==> hears(out, (#[trigger] all[i]).0)
    &&& exists|at: spec_fn(int) -> int| #[trigger] places(all, out, at)
}

/// `at` tells of each rule of `out` where it stands in `all`.
spec fn places(all: Seq<RuleView>, out: Seq<RuleView>, at: spec_fn(int) -> int) -> bool {
    &&& forall|k: int|
        0 <= k < out.len() ==> first_of_key(all, #[trigger] at(k)) && all[at(k)] == out[k]
    &&& forall|j: int, k: int| 0 <= j < k < out.len() ==> #[trigger] at(j) < #[trigger] at(k)
}

proof fn firsts_grow(all: Seq<RuleView>, out: Seq<RuleView>, r: RuleView)
    requires
        firsts_of(all, out),
    ensures
        firsts_of(all.push(r), with_rule(out, r)),
{
    let more = all.push(r);
    let grown = with_rule(out, r);
    let n = all.len() as int;
    let at = choose|at: spec_fn(int) -> int| #[trigger] places(all, out, at);
    hears_by_key(out, r.0);
    let known = hears(out, r.0);
    assert forall|i: int| 0 <= i < n implies first_of_key(all, i) == #[trigger] first_of_key(
        more,
        i,
    ) by {
        if first_of_key(all, i) {
            assert forall|j: int| 0 <= j < i implies unicode_lowercase((#[trigger] more[j]).0)
                != unicode_lowercase(more[i].0) by {
                assert(more[j] == all[j]);
            }
        }
        if first_of_key(more, i) {
            assert forall|j: int| 0 <= j < i implies unicode_lowercase((#[trigger] all[j]).0)
                != unicode_lowercase(all[i].0) by {
                assert(more[j] == all[j]);
            }
        }
    }
    assert(first_of_key(more, n) == !known) by {
        if known {
            let k = choose|k: int|
                0 <= k < out.len() && unicode_lowercase((#[trigger] out[k]).0) == unicode_lowercase(
                    r.0,
                );
            assert(first_of_key(all, at(k)) && all[at(k)] == out[k]);
            assert(more[at(k)] == out[k]);
        } else {
            assert forall|j: int| 0 <= j < n implies unicode_lowercase((#[trigger] more[j]).0)
                != unicode_lowercase(more[n].0) by {
                assert(more[j] == all[j]);
                assert(hears(out, all[j].0));
                let k = choose|k: int|
                    0 <= k < out.len() && unicode_lowercase((#[trigger] out[k]).0)
                        == unicode_lowercase(all[j].0);
                assert(unicode_lowercase(out[k].0) != unicode_lowercase(r.0));
            }
        }
    }
    assert forall|i: int| #[trigger] first_of_key(more, i) implies grown.contains(more[i]) by {
        if i < n {
            assert(first_of_key(all, i));
            let k = choose|k: int| 0 <= k < out.len() && out[k] == all[i];
            assert(grown[k] == all[i]);
        } else {
            assert(grown[out.len() as int] == r);
        }
    }
    assert forall|i: int| 0 <= i < more.len() implies hears(grown, (#[trigger] more[i]).0) by {
        if i < n {
            assert(hears(out, all[i].0));
            let k = choose|k: int|
                0 <= k < out.len() && unicode_lowercase((#[trigger] out[k]).0) == unicode_lowercase(
                    all[i].0,
                );
            assert(grown[k] == out[k]);
        } else if known {
            let k = choose|k: int|
                0 <= k < out.len() && unicode_lowercase((#[trigger] out[k]).0) == unicode_lowercase(
                    r.0,
                );
            assert(grown[k] == out[k]);
        } else {
            assert(grown[out.len() as int] == r);
        }
    }
    let next = |k: int|
        if k < out.len() {
            at(k)
        } else {
            n
        };
    assert(places(more, grown, next)) by {
        assert forall|k: int| 0 <= k < grown.len() implies first_of_key(more, #[trigger] next(k))
            && more[next(k)] == grown[k] by {
            if k < out.len() {
                assert(first_of_key(all, at(k)));
                assert(first_of_key(more, at(k)));
            }
        }
        assert forall|j: int, k: int| 0 <= j < k < grown.len() implies #[trigger] next(j)
            < #[trigger] next(k) by {
            assert(first_of_key(all, at(j)));
            if k < out.len() {
                assert(at(j) < at(k));
            }
        }
    }
}

proof fn own_rules_are_firsts(user: Seq<RuleView>, n: int)
    requires
        0 <= n <= user.len(),
    ensures
        firsts_of(user.take(n), own_rules(user, n)),
    decreases n,
{
    if n > 0 {
        own_rules_are_firsts(user, n - 1);
        firsts_grow(user.take(n - 1), own_rules(user, n - 1), user[n - 1]);
        assert(user.take(n - 1).push(user[n - 1]) =~= user.take(n));
    } else {
        let at = |k: int| k;
        assert(places(user.take(0), own_rules(user, 0), at));
    }
}

proof fn filled_up_are_firsts(user: Seq<RuleView>, defaults: Seq<RuleView>, n: int, max: nat)
    requires
        0 <= n <= defaults.len(),
        filled_up(own_rules(user, user.len() as int), defaults, n, max).len() < max,
    ensures
        firsts_of(
            user + defaults.take(n),
            filled_up(own_rules(user, user.len() as int), defaults, n, max),
        ),
    decreases n,
{
    let own = own_rules(user, user.len() as int);
    if n > 0 {
        let before = filled_up(own, defaults, n - 1, max);
        assert(before.len() < max);
        filled_up_are_firsts(user, defaults, n - 1, max);
        firsts_grow(user + defaults.take(n - 1), before, defaults[n - 1]);
        assert((user + defaults.take(n - 1)).push(defaults[n - 1]) =~= user + defaults.take(n));
    } else {
        own_rules_are_firsts(user, user.len() as int);
        assert(user.take(user.len() as int) =~= user);
        assert(user + defaults.take(0) =~= user);
    }
}

proof fn filling_up_only_adds(
    rules: Seq<RuleView>,
    defaults: Seq<RuleView>,
    n: int,
    m: int,
    max: nat,
)
    requires
        0 <= n <= m <= defaults.len(),
    ensures
        filled_up(rules, defaults, n, max).len() <= filled_up(rules, defaults, m, max).len(),
        filled_up(rules, defaults, m, max).take(
            filled_up(rules, defaults, n, max).len() as int,
        ) == filled_up(rules, defaults, n, max),
        filled_up(rules, defaults, n, max).len() >= max ==> filled_up(rules, defaults, m, max)
            == filled_up(rules, defaults, n, max),
    decreases m,
{
    let few = filled_up(rules, defaults, n, max);
    let all = filled_up(rules, defaults, m, max);
    if n < m {
        filling_up_only_adds(rules, defaults, n, m - 1, max);
        let before = filled_up(rules, defaults, m - 1, max);
        assert(all.take(few.len() as int) =~= before.take(few.len() as int));
    } else {
        assert(few.take(few.len() as int) =~= few);
    }
}

/// Both rules are the first of their keys in the list, and `a` stands before `b`.
pub open spec fn stands_before(all: Seq<RuleView>, a: RuleView, b: RuleView) -> bool {
    exists|i: int, j: int|
        i < j && #[trigger] first_of_key(all, i) && #[trigger] first_of_key(all, j) && all[i] == a
            && all[j] == b
}

/// The merge is complete. Where it stays below the limit, every built-in rule and
/// every rule of the person's own is heard by it; a rule whose key no earlier one has,
/// the person's own counted first, is in it itself; and it is in order: of two of its
/// rules, the earlier one stands earlier in the person's own rules followed by the
/// built-in ones.
pub proof fn the_merge_is_complete(user: Seq<RuleView>, defaults: Seq<RuleView>, max: nat)
    requires
        merged(user, defaults, max).len() < max,
    ensures
        forall|i: int|
            0 <= i < user.len() ==> hears(merged(user, defaults, max), (#[trigger] user[i]).0),
        forall|i: int|
            0 <= i < defaults.len() ==> hears(
                merged(user, defaults, max),
                (#[trigger] defaults[i]).0,
            ),
        forall|i: int| #[trigger]
            first_of_key(user + defaults, i) ==> merged(user, defaults, max).contains(
                (user + defaults)[i],
            ),
        forall|a: int, b: int|
            0 <= a < b < merged(user, defaults, max).len() ==> stands_before(
                user + defaults,
                #[trigger] merged(user, defaults, max)[a],
                #[trigger] merged(user, defaults, max)[b],
            ),
{
    let all = user + defaults;
    let out = merged(user, defaults, max);
    filled_up_are_firsts(user, defaults, defaults.len() as int, max);
    assert(defaults.take(defaults.len() as int) =~= defaults);
    assert forall|i: int| 0 <= i < user.len() implies hears(out, (#[trigger] user[i]).0) by {
        assert(all[i] == user[i]);
    }
    assert forall|i: int| 0 <= i < defaults.len() implies hears(out, (#[trigger] defaults[i]).0) by {
        assert(all[user.len() + i] == defaults[i]);
    }
    let at = choose|at: spec_fn(int) -> int| #[trigger] places(all, out, at);
    assert forall|a: int, b: int| 0 <= a < b < out.len() implies stands_before(
        all,
        #[trigger] out[a],
        #[trigger] out[b],
    ) by {
        assert(at(a) < at(b));
        assert(first_of_key(all, at(a)) && first_of_key(all, at(b)));
    }
}

/// Whatever the limit, each rule of the person's own whose key no earlier one has is
/// in the merge, before every built-in rule; nothing is in it that is not a rule of
/// the person's own or a built-in one; and it reaches the limit only with rules that
/// a larger limit would hold at the same places.
pub proof fn the_limit_cuts_off_built_in_rules_alone(
    user: Seq<RuleView>,
    defaults: Seq<RuleView>,
    max: nat,
    more: nat,
)
    requires
        max <= more,
    ensures
        ({
            let out = merged(user, defaults, max);
            let all = merged(user, defaults, more);
            &&& forall|i: int| #[trigger]
                first_of_key(user, i) ==> exists|k: int|
                    0 <= k < out.len() && k <= i && #[trigger] out[k] == user[i]
            &&& forall|k: int|
                0 <= k < out.len() ==> user.contains(#[trigger] out[k]) || defaults.contains(out[k])
            &&& out.len() <= all.len()
            &&& all.take(out.len() as int) == out
            &&& out.len() < all.len() ==> out.len() >= max
        }),
{
    let out = merged(user, defaults, max);
    let n = user.len() as int;
    let own = own_rules(user, n);
    own_rules_are_firsts(user, n);
    assert(user.take(n) =~= user);
    filling_up_only_adds(own, defaults, 0, defaults.len() as int, max);
    let at = choose|at: spec_fn(int) -> int| #[trigger] places(user, own, at);
    assert forall|i: int| #[trigger] first_of_key(user, i) implies exists|k: int|
        0 <= k < out.len() && k <= i && #[trigger] out[k] == user[i] by {
        assert(own.contains(user[i]));
        let k = choose|k: int| 0 <= k < own.len() && own[k] == user[i];
        places_advance(user, own, at, k);
        assert(first_of_key(user, at(k)));
        if at(k) < i {
            assert(unicode_lowercase(user[at(k)].0) != unicode_lowercase(user[i].0));
        } else if i < at(k) {
            assert(unicode_lowercase(user[i].0) != unicode_lowercase(user[at(k)].0));
        }
        assert(out.take(own.len() as int)[k] == own[k]);
        assert(out[k] == user[i]);
    }
    merged_comes_from(user, defaults, defaults.len() as int, max);
    limits_cut_alike(own, defaults, defaults.len() as int, max, more);
}

proof fn places_advance(all: Seq<RuleView>, out: Seq<RuleView>, at: spec_fn(int) -> int, k: int)
    requires
        places(all, out, at),
        0 <= k < out.len(),
    ensures
        k <= at(k),
    decreases k,
{
    assert(first_of_key(all, at(k)));
    if k > 0 {
        places_advance(all, out, at, k - 1);
        assert(at(k - 1) < at(k));
    }
}

proof fn merged_comes_from(user: Seq<RuleView>, defaults: Seq<RuleView>, n: int, max: nat)
    requires
        0 <= n <= defaults.len(),
    ensures
        forall|k: int|
            0 <= k < filled_up(own_rules(user, user.len() as int), defaults, n, max).len()
                ==> user.contains(
                #[trigger] filled_up(own_rules(user, user.len() as int), defaults, n, max)[k],
            ) || defaults.contains(
                filled_up(own_rules(user, user.len() as int), defaults, n, max)[k],
            ),
    decreases n,
{
    let own = own_rules(user, user.len() as int);
    let out = filled_up(own, defaults, n, max);
    if n > 0 {
        merged_comes_from(user, defaults, n - 1, max);
        let before = filled_up(own, defaults, n - 1, max);
        assert forall|k: int| 0 <= k < out.len() implies user.contains(#[trigger] out[k])
            || defaults.contains(out[k]) by {
            if k < before.len() {
                assert(out[k] == before[k]);
            } else {
                assert(out[k] == defaults[n - 1]);
            }
        }
    } else {
        own_rules_are_firsts(user, user.len() as int);
        assert(user.take(user.len() as int) =~= user);
        let at = choose|at: spec_fn(int) -> int| #[trigger] places(user, own, at);
        assert forall|k: int| 0 <= k < out.len() implies user.contains(#[trigger] out[k]) by {
            assert(first_of_key(user, at(k)) && user[at(k)] == out[k]);
        }
    }
}

proof fn limits_cut_alike(
    rules: Seq<RuleView>,
    defaults: Seq<RuleView>,
    n: int,
    max: nat,
    more: nat,
)
    requires
        0 <= n <= defaults.len(),
        max <= more,
    ensures
        ({
            let out = filled_up(rules, defaults, n, max);
            let all = filled_up(rules, defaults, n, more);
            &&& out.len() <= all.len()
            &&& all.take(out.len() as int) == out
            &&& out.len() < all.len() ==> out.len() >= max
        }),
    decreases n,
{
    let out = filled_up(rules, defaults, n, max);
    let all = filled_up(rules, defaults, n, more);
    if n > 0 {
        limits_cut_alike(rules, defaults, n - 1, max, more);
        let few = filled_up(rules, defaults, n - 1, max);
        let many = filled_up(rules, defaults, n - 1, more);
        if few.len() < max {
            assert(many.take(few.len() as int) =~= many);
            assert(few == many);
            assert(all.take(out.len() as int) =~= out);
        } else {
            assert(all.take(out.len() as int) =~= many.take(out.len() as int));
        }
    } else {
        assert(all.take(out.len() as int) =~= out);
    }
}

/// Rules that are all heard differently are merged by putting one list after the
/// other, where the limit has room for both.
pub proof fn different_rules_are_put_together(
    user: Seq<RuleView>,
    defaults: Seq<RuleView>,
    max: nat,
)
    requires
        user.len() + defaults.len() <= max,
        forall|i: int, j: int|
            0 <= i < j < user.len() + defaults.len() ==> unicode_lowercase(
                (#[trigger] (user + defaults)[i]).0,
            ) != unicode_lowercase((#[trigger] (user + defaults)[j]).0),
    ensures
        merged(user, defaults, max) == user + defaults,
{
    let all = user + defaults;
    own_part_of_all(user, defaults, user.len() as int);
    assert(all.take(user.len() as int) =~= user);
    default_part_of_all(user, defaults, defaults.len() as int, max);
    assert(all.take(all.len() as int) =~= all);
}

proof fn next_is_new(all: Seq<RuleView>, n: int)
    requires
        0 <= n < all.len(),
        forall|i: int, j: int|
            0 <= i < j < all.len() ==> unicode_lowercase((#[trigger] all[i]).0)
                != unicode_lowercase((#[trigger] all[j]).0),
    ensures
        with_rule(all.take(n), all[n]) == all.take(n + 1),
{
    let keys = heard_keys(all.take(n));
    if keys.contains(unicode_lowercase(all[n].0)) {
        let k = choose|k: int| 0 <= k < keys.len() && keys[k] == unicode_lowercase(all[n].0);
        assert(unicode_lowercase(all[k].0) != unicode_lowercase(all[n].0));
        assert(all.take(n)[k] == all[k]);
    }
    assert(all.take(n).push(all[n]) =~= all.take(n + 1));
}

proof fn own_part_of_all(user: Seq<RuleView>, defaults: Seq<RuleView>, n: int)
    requires
        0 <= n <= user.len(),
        forall|i: int, j: int|
            0 <= i < j < user.len() + defaults.len() ==> unicode_lowercase(
                (#[trigger] (user + defaults)[i]).0,
            ) != unicode_lowercase((#[trigger] (user + defaults)[j]).0),
    ensures
        own_rules(user, n) == (user + defaults).take(n),
    decreases n,
{
    let all = user + defaults;
    if n > 0 {
        own_part_of_all(user, defaults, n - 1);
        next_is_new(all, n - 1);
        assert(all[n - 1] == user[n - 1]);
    } else {
        assert(all.take(0) =~= Seq::<RuleView>::empty());
    }
}

proof fn default_part_of_all(user: Seq<RuleView>, defaults: Seq<RuleView>, n: int, max: nat)
    requires
        0 <= n <= defaults.len(),
        user.len() + defaults.len() <= max,
        own_rules(user, user.len() as int) == user,
        forall|i: int, j: int|
            0 <= i < j < user.len() + defaults.len() ==> unicode_lowercase(
                (#[trigger] (user + defaults)[i]).0,
            ) != unicode_lowercase((#[trigger] (user + defaults)[j]).0),
    ensures
        filled_up(own_rules(user, user.len() as int), defaults, n, max) == (user + defaults).take(
            user.len() + n,
        ),
    decreases n,
{
    let all = user + defaults;
    if n > 0 {
        default_part_of_all(user, defaults, n - 1, max);
        next_is_new(all, user.len() + n - 1);
        assert(all[user.len() + n - 1] == defaults[n - 1]);
    } else {
        assert(all.take(user.len() as int) =~= user);
    }
}

/// Is there a rule of that key among the rules?
fn key_known(keys: &[String], key: &str) -> (r: bool)
    ensures
        r == texts(keys@).contains(key@),
{
    crate::text::listed(keys, key)
}

/// Adds a rule, unless its key is there already.
fn add_rule(rules: &mut Vec<Rule>, keys: &mut Vec<String>, rule: &Rule)
    requires
        texts(old(keys)@) == heard_keys(rules_view(old(rules)@)),
    ensures
        texts(final(keys)@) == heard_keys(rules_view(final(rules)@)),
        rules_view(final(rules)@) == with_rule(rules_view(old(rules)@), rule_view(*rule)),
{
    let key = lowercase(&rule.0);
    if key_known(keys, &key) {
        return;
    }
    let ghost before = rules@;
    let ghost known = keys@;
    let kept = (rule.0.clone(), rule.1.clone());
    rules.push(kept);
    keys.push(key);
    proof {
        assert(rules_view(rules@) =~= rules_view(before).push(rule_view(*rule)));
        assert(texts(keys@) =~= texts(known).push(key@));
        assert(heard_keys(rules_view(rules@)) =~= heard_keys(rules_view(before)).push(key@));
    }
}

/// The person's own rules over the built-in ones, for the engine. A rule of the
/// person's own wins over a built-in one that is heard alike, so that it can be
/// changed, or switched off by mapping the phrase to itself.
pub fn merge_rules(user: &[Rule], defaults: &[Rule], limits: &Limits) -> (r: Vec<Rule>)
    ensures
        rules_view(r@) == merged(
            rules_view(user@),
            rules_view(defaults@),
            limits.max_rules as nat,
        ),
{
    let mut rules: Vec<Rule> = Vec::new();
    let mut keys: Vec<String> = Vec::new();
    let ghost own = rules_view(user@);
    let ghost built_in = rules_view(defaults@);
    proof {
        assert(rules_view(rules@) =~= Seq::<RuleView>::empty());
        assert(texts(keys@) =~= heard_keys(rules_view(rules@)));
    }
    let mut i: usize = 0;
    while i < user.len()
        invariant
            i <= user@.len(),
            own == rules_view(user@),
            texts(keys@) == heard_keys(rules_view(rules@)),
            rules_view(rules@) == own_rules(own, i as int),
        decreases user@.len() - i,
    {
        assert(own[i as int] == rule_view(user@[i as int]));
        add_rule(&mut rules, &mut keys, &user[i]);
        i += 1;
    }
    let ghost base = rules_view(rules@);
    let mut j: usize = 0;
    while j < defaults.len()
        invariant
            j <= defaults@.len(),
            built_in == rules_view(defaults@),
            texts(keys@) == heard_keys(rules_view(rules@)),
            rules_view(rules@) == filled_up(base, built_in, j as int, limits.max_rules as nat),
        decreases defaults@.len() - j,
    {
        assert(built_in[j as int] == rule_view(defaults@[j as int]));
        if rules.len() < limits.max_rules {
            add_rule(&mut rules, &mut keys, &defaults[j]);
        }
        j += 1;
    }
    rules
}

impl DictionaryError {
    /// The words for the error.
    pub open spec fn words(self) -> Seq<char> {
        match self {
            DictionaryError::TooManyRules { max } => "dictionary contains more than "@ + decimal(
                max as nat,
            ) + " rules"@,
            DictionaryError::TooManyLines { count, max } => "dictionary has "@ + decimal(
                count as nat,
            ) + " rules; at most "@ + decimal(max as nat) + " are allowed"@,
            DictionaryError::SideTooLong { replacement, bytes, max } => "dictionary "@ + (
            if replacement {
                "replacement phrase"@
            } else {
                "heard phrase"@
            }) + " is "@ + decimal(bytes as nat) + " UTF-8 bytes; at most "@ + decimal(max as nat)
                + " are allowed"@,
            DictionaryError::NotOneLine => "dictionary entries must be single-line phrases"@,
            DictionaryError::NoRule =>
                "dictionary entries need one non-empty phrase on each side of =>"@,
            DictionaryError::SizeOverflow => "dictionary size overflow"@,
            DictionaryError::RulesTooLarge { max } => "dictionary rules exceed the "@ + decimal(
                max as nat,
            ) + "-byte document safety limit"@,
            DictionaryError::RewriteTooLarge { max } => "dictionary would exceed the "@ + decimal(
                max as nat,
            ) + "-byte document safety limit"@,
        }
    }

    /// The words for the error.
    pub fn message(&self) -> (r: String)
        ensures
            r@ == self.words(),
    {
        match *self {
            DictionaryError::TooManyRules { max } => "dictionary contains more than ".to_owned(
            ).concat(&decimal_text(max as u128)).concat(" rules"),
            DictionaryError::TooManyLines { count, max } => "dictionary has ".to_owned().concat(
                &decimal_text(count as u128),
            ).concat(" rules; at most ").concat(&decimal_text(max as u128)).concat(" are allowed"),
            DictionaryError::SideTooLong { replacement, bytes, max } => {
                let name = if replacement {
                    "replacement phrase"
                } else {
                    "heard phrase"
                };
                "dictionary ".to_owned().concat(name).concat(" is ").concat(
                    &decimal_text(bytes as u128),
                ).concat(" UTF-8 bytes; at most ").concat(&decimal_text(max as u128)).concat(
                    " are allowed",
                )
            },
            DictionaryError::NotOneLine =>
                "dictionary entries must be single-line phrases".to_owned(),
            DictionaryError::NoRule =>
                "dictionary entries need one non-empty phrase on each side of =>".to_owned(),
            DictionaryError::SizeOverflow => "dictionary size overflow".to_owned(),
            DictionaryError::RulesTooLarge { max } => "dictionary rules exceed the ".to_owned(
            ).concat(&decimal_text(max as u128)).concat("-byte document safety limit"),
            DictionaryError::RewriteTooLarge { max } => "dictionary would exceed the ".to_owned(
            ).concat(&decimal_text(max as u128)).concat("-byte document safety limit"),
        }
    }
}

impl DocumentError {
    /// The words for the error of the file at `path`.
    pub open spec fn words(self, path: Seq<char>) -> Seq<char> {
        match self {
            DocumentError::TooLarge { max } => "replacement rules at "@ + path + " exceed the "@
                + decimal(max as nat)
                + "-byte safety limit; the existing file was left untouched"@,
            DocumentError::NotUtf8(words) => "replacement rules at "@ + path
                + " are not valid UTF-8 ("@ + words@ + "); the existing file was left untouched"@,
            DocumentError::Rules(e) => "replacement rules at "@ + path
                + " are outside supported bounds ("@ + e.words()
                + "); the existing file was left untouched"@,
        }
    }

    /// The words for the error of the file at `path`.
    pub fn message(&self, path: &str) -> (r: String)
        ensures
            r@ == self.words(path@),
    {
        let start = "replacement rules at ".to_owned().concat(path);
        match self {
            DocumentError::TooLarge { max } => start.concat(" exceed the ").concat(
                &decimal_text(*max as u128),
            ).concat("-byte safety limit; the existing file was left untouched"),
            DocumentError::NotUtf8(words) => start.concat(" are not valid UTF-8 (").concat(
                words,
            ).concat("); the existing file was left untouched"),
            DocumentError::Rules(e) => start.concat(" are outside supported bounds (").concat(
                &e.message(),
            ).concat("); the existing file was left untouched"),
        }
    }
}

impl RulesSaveError {
    /// The words for the error of the file at `path`.
    pub open spec fn words(self, path: Seq<char>) -> Seq<char> {
        match self {
            RulesSaveError::Conflict => "dictionary at "@ + path
                + " changed outside this window; reload Dictionary and try again. The newer disk file was left byte-for-byte unchanged"@,
            RulesSaveError::Document(e) => e.words(path),
            RulesSaveError::Rules(e) => e.words(),
        }
    }

    /// The words for the error of the file at `path`.
    pub fn message(&self, path: &str) -> (r: String)
        ensures
            r@ == self.words(path@),
    {
        match self {
            RulesSaveError::Conflict => "dictionary at ".to_owned().concat(path).concat(
                " changed outside this window; reload Dictionary and try again. The newer disk file was left byte-for-byte unchanged",
            ),
            RulesSaveError::Document(e) => e.message(path),
            RulesSaveError::Rules(e) => e.message(),
        }
    }
}

/// The text has a visible character at both ends.
pub open spec fn clean(s: Seq<char>) -> bool {
    s.len() > 0 && !white(s[0]) && !white(s.last())
}

/// The arrow stands somewhere in the text.
pub open spec fn has_arrow(s: Seq<char>) -> bool {
    exists|i: int| 0 <= i < s.len() - 1 && #[trigger] s[i] == '=' && s[i + 1] == '>'
}

/// A line is read as a rule at its first arrow, with any white space round the two
/// phrases; what follows, a further arrow too, belongs to the second phrase.
pub proof fn a_rule_is_read_from_its_line(
    from: Seq<char>,
    to: Seq<char>,
    before: Seq<char>,
    left: Seq<char>,
    right: Seq<char>,
    after: Seq<char>,
)
    requires
        clean(from),
        clean(to),
        from[0] != '#',
        !has_arrow(from),
        blank(before),
        blank(left),
        blank(right),
        blank(after),
    ensures
        line_rule(before + (from + left + "=>"@ + right + to) + after) == Some((from, to)),
{
    reveal_strlit("=>");
    let l = from + left + "=>"@ + right + to;
    let none = Seq::<char>::empty();
    let k = (from.len() + left.len()) as int;
    assert(l[0] == from[0]);
    assert(l.last() == to.last());
    trimming_leaves_the_middle(before, l, after);
    assert(l[k] == '=' && l[k + 1] == '>');
    assert forall|j: int| 0 <= j < k implies !(#[trigger] l[j] == '=' && l[j + 1] == '>') by {
        if j < from.len() {
            assert(l[j] == from[j]);
            if j + 1 < from.len() {
                assert(l[j + 1] == from[j + 1]);
            } else if left.len() > 0 {
                assert(l[j + 1] == left[0]);
                assert(white(left[0]));
            }
        } else {
            assert(l[j] == left[j - from.len()]);
            assert(white(left[j - from.len()]));
        }
    }
    arrow_found(l, 0, k);
    trimming_leaves_the_middle(none, from, left);
    assert(none + from + left =~= l.take(k));
    trimming_leaves_the_middle(right, to, none);
    assert(right + to + none =~= l.skip(k + 2));
}

/// A line without an arrow holds no rule, nor does one with nothing but white space
/// on one side of its first arrow, nor a comment.
pub proof fn other_lines_hold_no_rule(line: Seq<char>, from: Seq<char>, to: Seq<char>)
    ensures
        !has_arrow(line) ==> line_rule(line) is None,
        trimmed(line).len() > 0 && trimmed(line)[0] == '#' ==> line_rule(line) is None,
        blank(line) ==> line_rule(line) is None,
        blank(from) && line == from + "=>"@ + to ==> line_rule(line) is None,
        blank(to) && !has_arrow(from) && line == from + "=>"@ + to ==> line_rule(line) is None,
{
    reveal_strlit("=>");
    let l = trimmed(line);
    let none = Seq::<char>::empty();
    arrow_is_first(l, 0);
    let k = arrow(l, 0);
    trimmed_has_clean_ends(line);
    let start = skip_white(line, 0);
    if k < l.len() {
        assert(line[start + k] == l[k] && line[start + k + 1] == l[k + 1]);
        assert(has_arrow(line));
    }
    if blank(line) {
        trimming_leaves_the_middle(line, none, none);
        assert(line + none + none =~= line);
    }
    if blank(from) && line == from + "=>"@ + to {
        let rest = "=>"@ + to;
        assert(trimmed(rest).len() > 0 && line_rule(line) is None) by {
            blank_front(from, rest);
            trimmed_has_clean_ends(rest);
            assert(rest[0] == '=');
            assert(trimmed(line) == trimmed(rest)) by {
                assert(from + rest =~= line);
            }
            let t = trimmed(rest);
            assert(t == rest.subrange(0, t.len() as int));
            if t.len() >= 2 {
                assert(t[0] == '=' && t[1] == '>');
                arrow_found(t, 0, 0);
                trimming_leaves_the_middle(none, none, none);
                assert(none + none + none =~= t.take(0));
            } else {
                // The second character is no white space, so it is not cut off.
                keeps_two(rest);
            }
        }
    }
    if blank(to) && !has_arrow(from) && line == from + "=>"@ + to {
        if line_rule(line) is Some {
            assert(k < l.len());
            assert(line[start + k] == '=' && line[start + k + 1] == '>');
            let at = from.len() as int;
            // The only arrow is the one between the two sides.
            assert(start + k == at) by {
                let x = start + k;
                if x < at {
                    if x + 1 < at {
                        assert(from[x] == '=' && from[x + 1] == '>');
                    } else {
                        assert(line[x + 1] == '=');
                    }
                } else if x > at {
                    if x == at + 1 {
                        assert(line[x] == '>');
                    } else {
                        assert(line[x] == to[x - at - 2]);
                        assert(white(to[x - at - 2]));
                    }
                }
            }
            let tail = l.skip(k + 2);
            assert forall|i: int| 0 <= i < tail.len() implies white(#[trigger] tail[i]) by {
                assert(tail[i] == line[start + k + 2 + i]);
                assert(tail[i] == to[i]);
            }
            trimming_leaves_the_middle(tail, none, none);
            assert(tail + none + none =~= tail);
        }
    }
}

proof fn blank_front(front: Seq<char>, s: Seq<char>)
    requires
        blank(front),
    ensures
        trimmed(front + s) == trimmed(s),
{
    let from = skip_white(s, 0);
    let till = crate::text::drop_white(s, from, s.len() as int);
    trimmed_has_clean_ends(s);
    white_ends(s);
    let a = s.take(from);
    let m = trimmed(s);
    let b = s.skip(till);
    assert(s =~= a + m + b);
    assert(front + s =~= (front + a) + m + b);
    let lead = front + a;
    assert forall|i: int| 0 <= i < lead.len() implies white(#[trigger] lead[i]) by {
        if i < front.len() {
            assert(lead[i] == front[i]);
        } else {
            assert(lead[i] == a[i - front.len()]);
        }
    }
    trimming_leaves_the_middle(lead, m, b);
}

/// What trimming cuts off is white space.
proof fn white_ends(s: Seq<char>)
    ensures
        ({
            let from = skip_white(s, 0);
            &&& blank(s.take(from))
            &&& blank(s.skip(crate::text::drop_white(s, from, s.len() as int)))
        }),
{
    let from = skip_white(s, 0);
    let n = s.len() as int;
    crate::text::trimming_cuts_off_white_space(s);
    trimmed_has_clean_ends(s);
    let a = s.take(from);
    let b = s.skip(crate::text::drop_white(s, from, n));
    assert forall|i: int| 0 <= i < a.len() implies white(#[trigger] a[i]) by {
        assert(a[i] == s[i]);
    }
    assert forall|i: int| 0 <= i < b.len() implies white(#[trigger] b[i]) by {
        assert(b[i] == s[i + crate::text::drop_white(s, from, n)]);
    }
}

proof fn keeps_two(s: Seq<char>)
    requires
        s.len() >= 2,
        !white(s[0]),
        !white(s[1]),
    ensures
        trimmed(s).len() >= 2,
{
    trimmed_has_clean_ends(s);
    crate::text::trimming_cuts_off_white_space(s);
    let till = crate::text::drop_white(s, 0, s.len() as int);
    if till <= 1 {
        assert(white(s[1]));
    }
}

/// A document is read exactly where it holds no more rules than are allowed and no
/// side of one is too long, and then all its rules are, in their order.
pub proof fn documents_within_bounds_are_read(source: Seq<char>, limits: Limits)
    ensures
        parsed(source, limits) is Ok <==> {
            &&& document_rules(source).len() <= limits.max_rules
            &&& forall|i: int|
                0 <= i < document_rules(source).len() ==> encode_utf8(
                    (#[trigger] document_rules(source)[i]).0,
                ).len() <= limits.max_side_bytes && encode_utf8(document_rules(source)[i].1).len()
                    <= limits.max_side_bytes
        },
        parsed(source, limits) matches Ok(rules) ==> rules == document_rules(source),
{
    let rules = document_rules(source);
    let faulty = |r: RuleView| side_fault(r, limits) is Some;
    crate::seqs::first_where_is_first(rules, faulty, 0);
    let bad = first_where(rules, faulty, 0);
    if bad < rules.len() {
        assert(faulty(rules[bad]));
    } else {
        assert forall|i: int| 0 <= i < rules.len() implies side_fault(
            #[trigger] rules[i],
            limits,
        ) is None by {
            assert(!faulty(rules[i]));
        }
    }
}

/// Documents are read line by line: one that is put behind whole lines adds its rules
/// behind theirs. (A byte order mark belongs to the beginning of a document.)
pub proof fn documents_are_read_line_by_line(a: Seq<char>, b: Seq<char>)
    requires
        a.len() > 0 && a.last() == '\n',
        b.len() == 0 || b[0] != mark(),
    ensures
        document_rules(a + b) == document_rules(a) + document_rules(b),
{
    let front = lines(a);
    let back = lines(b);
    crate::lines::lines_make_the_text(a);
    crate::lines::lines_make_the_text(b);
    let m = front.len() as int;
    assert forall|i: int| 0 <= i < m implies crate::lines::one_line(#[trigger] front[i])
        && crate::lines::ended(front[i]) by {
        if i == m - 1 {
            assert(unlines(front) == unlines(front.drop_last()) + front.last());
            assert(a.last() == front.last().last());
        }
    }
    lines_after_whole_lines(front, b);
    let all = front + back;
    rules_in_prefix(front, all, m);
    if back.len() > 0 {
        crate::lines::unlines_of_front(back[0], back.drop_first());
        assert(seq![back[0]] + back.drop_first() =~= back);
        assert(crate::lines::one_line(back[0]));
        assert(back[0][0] == b[0]);
    }
    rules_behind(front, back, back.len() as int);
}

proof fn rules_behind(front: Seq<Seq<char>>, back: Seq<Seq<char>>, n: int)
    requires
        0 <= n <= back.len(),
        front.len() > 0,
        back.len() > 0 ==> back[0].len() > 0 && back[0][0] != mark(),
    ensures
        rules_in(front + back, front.len() + n) == rules_in(front, front.len() as int) + rules_in(
            back,
            n,
        ),
    decreases n,
{
    let all = front + back;
    if n > 0 {
        rules_behind(front, back, n - 1);
        assert(all[front.len() + n - 1] == back[n - 1]);
        if n == 1 {
            let c = line_content(back[0]);
            assert(c.len() > 0 ==> c[0] == back[0][0]);
        }
        assert(rule_at(all, front.len() + n - 1) == rule_at(back, n - 1));
        assert(rules_in(all, front.len() + n) =~= rules_in(front, front.len() as int) + rules_in(
            back,
            n,
        ));
    } else {
        rules_in_prefix(front, all, front.len() as int);
        assert(rules_in(front, front.len() as int) + rules_in(back, 0) =~= rules_in(
            front,
            front.len() as int,
        ));
    }
}

/// The entries of an edit are taken where there are no more than are allowed, each is
/// one line with one rule whose sides are not too long, and all of them together fit
/// a document. Each is then written out in one form.
pub proof fn entries_within_bounds_are_taken(entries: Seq<Seq<char>>, limits: Limits)
    requires
        entries.len() <= limits.max_rules,
        forall|i: int|
            0 <= i < entries.len() ==> !breaks(#[trigger] entries[i]) && line_rule(entries[i])
                is Some && encode_utf8((line_rule(entries[i])->0).0).len() <= limits.max_side_bytes
                && encode_utf8((line_rule(entries[i])->0).1).len() <= limits.max_side_bytes,
        written_bytes(entries, entries.len() as int) <= limits.max_document_bytes,
    ensures
        normalized(entries, limits) is Ok,
        normalized(entries, limits)->Ok_0.len() == entries.len(),
        forall|i: int|
            0 <= i < entries.len() ==> #[trigger] normalized(entries, limits)->Ok_0[i] == (
            line_rule(entries[i])->0).0 + " => "@ + (line_rule(entries[i])->0).1,
{
    assert forall|j: int| 0 <= j < entries.len() implies #[trigger] entry_fault(
        entries,
        j,
        limits,
    ) is None by {
        written_bytes_grow(entries, j + 1, entries.len() as int);
        assert(!breaks(entries[j]));
    }
    no_fault(entries, limits, 0);
}

proof fn written_bytes_grow(entries: Seq<Seq<char>>, a: int, b: int)
    requires
        0 <= a <= b,
    ensures
        written_bytes(entries, a) <= written_bytes(entries, b),
    decreases b - a,
{
    if a < b {
        written_bytes_grow(entries, a, b - 1);
    }
}

/// An edit is taken only where it is within all bounds: no more entries than are
/// allowed, each one line with one rule, and no side of one too long.
pub proof fn only_entries_within_bounds_are_taken(
    entries: Seq<Seq<char>>,
    limits: Limits,
    i: int,
)
    requires
        normalized(entries, limits) is Ok,
        0 <= i < entries.len(),
    ensures
        entries.len() <= limits.max_rules,
        !breaks(entries[i]),
        line_rule(entries[i]) is Some,
        encode_utf8((line_rule(entries[i])->0).0).len() <= limits.max_side_bytes,
        encode_utf8((line_rule(entries[i])->0).1).len() <= limits.max_side_bytes,
        written_bytes(entries, i + 1) <= limits.max_document_bytes,
{
    first_fault_range(entries, limits, 0);
    entries_hold(entries, limits, 0);
    assert(entry_fault(entries, i, limits) is None);
}

/// An edit that was made on the document as it is, whose entries are taken and whose
/// result fits, is saved.
pub proof fn a_current_edit_is_saved(
    source: Seq<u8>,
    expected: Seq<char>,
    entries: Seq<Seq<char>>,
    limits: Limits,
    r: Result<SavedRules, RulesSaveError>,
)
    requires
        saved(source, expected, entries, limits, r),
        sha256_hex(source) == expected,
        readable(source, limits),
        normalized(entries, limits) is Ok,
        encode_utf8(rewritten(text_in(source), normalized(entries, limits)->Ok_0)).len()
            <= limits.max_document_bytes,
    ensures
        r is Ok,
        r->Ok_0.text@ == rewritten(text_in(source), normalized(entries, limits)->Ok_0),
{
}

/// To write the rules of a document as they stand in it leaves every character of it
/// as it is.
pub proof fn the_same_rules_change_nothing(source: Seq<char>, replacements: Seq<Seq<char>>)
    requires
        replacements.len() == document_rules(source).len(),
        holds_exactly(lines(source), replacements),
    ensures
        rewritten(source, replacements) == source,
{
    let ls = lines(source);
    let out = rewritten_lines(ls, replacements);
    crate::lines::lines_make_the_text(source);
    assert forall|i: int| 0 <= i < ls.len() implies #[trigger] out[i] == ls[i] by {
        if rule_at(ls, i) is Some {
            parts_of_line(ls[i], i == 0);
        }
    }
    assert(out =~= ls);
}

/// Where a document is refused, the reason that is given holds of it: it has more rules
/// than are allowed, or one of them has a side of just that many bytes, which is too
/// long.
pub proof fn documents_are_refused_for_a_reason(source: Seq<char>, limits: Limits)
    ensures
        parsed(source, limits) matches Err(e) ==> match e {
            DictionaryError::TooManyRules { max } => max == limits.max_rules && document_rules(
                source,
            ).len() > max,
            DictionaryError::SideTooLong { replacement, bytes, max } => max
                == limits.max_side_bytes && exists|i: int|
                0 <= i < document_rules(source).len() && i < limits.max_rules && too_long_side(
                    #[trigger] document_rules(source)[i],
                    replacement,
                    limits.max_side_bytes,
                    bytes,
                ),
            _ => false,
        },
{
    let rules = document_rules(source);
    let faulty = |r: RuleView| side_fault(r, limits) is Some;
    crate::seqs::first_where_is_first(rules, faulty, 0);
    let bad = first_where(rules, faulty, 0);
    if bad < rules.len() && bad < limits.max_rules {
        assert(faulty(rules[bad]));
        let e = side_fault(rules[bad], limits)->0;
        assert(too_long_side(
            document_rules(source)[bad],
            e->SideTooLong_replacement,
            limits.max_side_bytes,
            e->SideTooLong_bytes,
        ));
    }
}

/// The heard phrase, or the replacement, of a rule is longer than `max` bytes, and
/// `bytes` tells how long it is.
pub open spec fn too_long_side(r: RuleView, replacement: bool, max: usize, bytes: usize) -> bool {
    let side = if replacement {
        r.1
    } else {
        r.0
    };
    encode_utf8(side).len() > max && bytes == encode_utf8(side).len() as usize
}

/// Where an edit is refused, the reason that is given holds of it.
pub proof fn edits_are_refused_for_a_reason(entries: Seq<Seq<char>>, limits: Limits)
    ensures
        normalized(entries, limits) matches Err(e) ==> match e {
            DictionaryError::TooManyLines { count, max } => max == limits.max_rules
                && entries.len() > max && count == entries.len() as usize,
            DictionaryError::NotOneLine => exists|i: int|
                0 <= i < entries.len() && breaks(#[trigger] entries[i]),
            DictionaryError::NoRule => exists|i: int|
                0 <= i < entries.len() && line_rule(#[trigger] entries[i]) is None,
            DictionaryError::SideTooLong { replacement, bytes, max } => max
                == limits.max_side_bytes && exists|i: int|
                0 <= i < entries.len() && line_rule(#[trigger] entries[i]) is Some
                    && too_long_side(line_rule(entries[i])->0, replacement, max, bytes),
            DictionaryError::RulesTooLarge { max } => max == limits.max_document_bytes
                && written_bytes(entries, entries.len() as int) > max,
            DictionaryError::SizeOverflow => written_bytes(entries, entries.len() as int)
                > usize::MAX,
            _ => false,
        },
{
    let bad = first_fault(entries, 0, limits);
    first_fault_range(entries, limits, 0);
    if entries.len() <= limits.max_rules && bad < entries.len() {
        fault_found(entries, limits, 0);
        written_bytes_grow(entries, bad + 1, entries.len() as int);
        let e = entry_fault(entries, bad, limits)->0;
        if breaks(entries[bad]) {
            assert(breaks(entries[bad]));
        } else if line_rule(entries[bad]) is None {
            assert(line_rule(entries[bad]) is None);
        } else if side_fault(line_rule(entries[bad])->0, limits) is Some {
            assert(too_long_side(
                line_rule(entries[bad])->0,
                e->SideTooLong_replacement,
                limits.max_side_bytes,
                e->SideTooLong_bytes,
            ));
        }
    }
}

proof fn fault_found(entries: Seq<Seq<char>>, limits: Limits, i: int)
    requires
        0 <= i <= entries.len(),
        first_fault(entries, i, limits) < entries.len(),
    ensures
        entry_fault(entries, first_fault(entries, i, limits), limits) is Some,
    decreases entries.len() - i,
{
    if i < entries.len() && entry_fault(entries, i, limits) is None {
        fault_found(entries, limits, i + 1);
    }
}

/// Rules for which a document has no line yet are put behind its text, each on a line
/// of its own with the ending that the first line has, or a line feed.
pub proof fn further_rules_follow_the_text(source: Seq<char>, replacements: Seq<Seq<char>>)
    requires
        document_rules(source).len() < replacements.len(),
    ensures
        ({
            let out = rewritten(source, replacements);
            let first = line_ending(lines(source)[0]);
            let newline = if source.len() > 0 && first.len() > 0 {
                first
            } else {
                seq!['\n']
            };
            let last = replacements.last() + newline;
            &&& crate::text::ends(out, last)
            &&& source.len() == 0 && replacements.len() == 1 ==> out == last
        }),
{
    let ls = lines(source);
    crate::lines::lines_make_the_text(source);
    let used = document_rules(source).len() as int;
    let newline = newline_of(ls);
    let added = added_lines(replacements, used, newline);
    let out = rewritten(source, replacements);
    let last = replacements.last() + newline;
    assert(added.last() == last);
    assert(unlines(added) == unlines(added.drop_last()) + last);
    let body = unlines(rewritten_lines(ls, replacements));
    let head = body + separator(body, newline) + unlines(added.drop_last());
    assert(out =~= head + last);
    assert(out.subrange(out.len() - last.len(), out.len() as int) =~= last);
    if source.len() == 0 && replacements.len() == 1 {
        assert(rewritten_lines(ls, replacements) =~= Seq::<Seq<char>>::empty());
        assert(body =~= Seq::<char>::empty());
        assert(added.drop_last() =~= Seq::<Seq<char>>::empty());
        assert(out =~= last);
    }
}

proof fn written_lines_take_their_bytes(entries: Seq<Seq<char>>, replacements: Seq<Seq<char>>, n: int)
    requires
        0 <= n <= entries.len(),
        replacements.len() == entries.len(),
        forall|i: int|
            0 <= i < entries.len() ==> #[trigger] replacements[i] == rule_line(
                line_rule(entries[i])->0,
            ),
    ensures
        encode_utf8(unlines(added_lines(replacements, 0, seq!['\n']).take(n))).len()
            == written_bytes(entries, n),
    decreases n,
{
    broadcast use vstd::utf8::is_ascii_chars_encode_utf8;

    let all = added_lines(replacements, 0, seq!['\n']);
    if n > 0 {
        written_lines_take_their_bytes(entries, replacements, n - 1);
        let part = all.take(n);
        assert(part.drop_last() =~= all.take(n - 1));
        assert(part.last() == replacements[n - 1] + seq!['\n']);
        encoding_of_parts(unlines(all.take(n - 1)), part.last());
        encoding_of_parts(replacements[n - 1], seq!['\n']);
        assert(vstd::utf8::is_ascii_chars(seq!['\n']));
    } else {
        assert(all.take(0) =~= Seq::<Seq<char>>::empty());
    }
}

/// The bytes that are counted for the entries of an edit are those of a new document
/// that holds them: each rule in its one form, and a line feed.
pub proof fn a_new_document_has_the_counted_bytes(entries: Seq<Seq<char>>, limits: Limits)
    requires
        normalized(entries, limits) is Ok,
    ensures
        encode_utf8(rewritten(Seq::empty(), normalized(entries, limits)->Ok_0)).len()
            == written_bytes(entries, entries.len() as int),
        encode_utf8(rewritten(Seq::empty(), normalized(entries, limits)->Ok_0)).len()
            <= limits.max_document_bytes,
{
    let source = Seq::<char>::empty();
    let replacements = normalized(entries, limits)->Ok_0;
    let ls = lines(source);
    let n = entries.len() as int;
    let body = unlines(rewritten_lines(ls, replacements));
    assert(rewritten_lines(ls, replacements) =~= Seq::<Seq<char>>::empty());
    assert(body =~= source);
    written_lines_take_their_bytes(entries, replacements, n);
    let all = added_lines(replacements, 0, seq!['\n']);
    assert(all.take(n) =~= all);
    if n > 0 {
        assert(rewritten(source, replacements) =~= unlines(all));
        only_entries_within_bounds_are_taken(entries, limits, n - 1);
    } else {
        assert(rewritten(source, replacements) =~= source);
    }
}

} // verus!
