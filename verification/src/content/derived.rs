//! Derived display metadata: read time from the AST, formatted dates from
//! ISO dates. The publish plan and the post page compute the same numbers.
use vstd::prelude::*;

use super::numbers::digits_value;
use super::{nodes_view, ListItem, Node, NodeV};
use crate::text::{chars_of, is_white_space, push_text, split_chars, split_on, white_space};

verus! {

/// Words a reader reads per minute.
pub const WORDS_PER_MINUTE: u64 = 200;

/// Whitespace-separated words in `s` (`str::split_whitespace().count()`):
/// the characters that are not white space and start `s` or follow white
/// space.
pub open spec fn word_count(s: Seq<char>) -> nat
    decreases s.len(),
{
    if s.len() == 0 {
        0
    } else {
        let starts = !is_white_space(s.last()) && (s.len() == 1 || is_white_space(s[s.len() - 2]));
        word_count(s.drop_last()) + if starts { 1nat } else { 0nat }
    }
}

/// Prose words: text and inline code are read; code blocks, image alt text
/// and attribute strings are not.
pub open spec fn node_words(n: NodeV) -> nat
    decreases n,
{
    match n {
        NodeV::Text(v) => word_count(v),
        NodeV::InlineCode(v) => word_count(v),
        NodeV::Heading(_, c) => seq_words(c),
        NodeV::Paragraph(c) => seq_words(c),
        NodeV::Emphasis(c) => seq_words(c),
        NodeV::Strong(c) => seq_words(c),
        NodeV::Link(_, _, c) => seq_words(c),
        NodeV::Blockquote(c) => seq_words(c),
        NodeV::Html(_, _, c) => seq_words(c),
        NodeV::Component(_, _, c) => seq_words(c),
        NodeV::List(_, _, items) => items_words(items),
        _ => 0,
    }
}

pub open spec fn seq_words(s: Seq<NodeV>) -> nat
    decreases s,
{
    if s.len() == 0 {
        0
    } else {
        seq_words(s.drop_last()) + node_words(s.last())
    }
}

pub open spec fn items_words(s: Seq<Seq<NodeV>>) -> nat
    decreases s,
{
    if s.len() == 0 {
        0
    } else {
        items_words(s.drop_last()) + seq_words(s.last())
    }
}

/// Read time for `words` words: whole minutes at 200 a minute, rounded up,
/// at least one, capped at `u32::MAX`.
pub open spec fn minutes_for(words: nat) -> u32 {
    let m = if words == 0 { 1 } else { (words + 199) / 200 };
    if m > u32::MAX { u32::MAX } else { m as u32 }
}

/// Counts are kept up to this cap, from which every read time is capped.
pub open spec fn word_cap() -> nat {
    0xC8_0000_0000
}

pub open spec fn capped(n: nat) -> nat {
    if n < word_cap() { n } else { word_cap() }
}

fn text_words(s: &str) -> (r: u64)
    ensures
        r == capped(word_count(s@)),
{
    let c = chars_of(s);
    let mut n: u64 = 0;
    let mut i: usize = 0;
    let mut prev_white = true;
    while i < c.len()
        invariant
            i <= c@.len(),
            n == capped(word_count(c@.take(i as int))),
            prev_white == (i == 0 || is_white_space(c@[i - 1])),
        decreases c@.len() - i,
    {
        assert(c@.take(i + 1).drop_last() =~= c@.take(i as int));
        if i > 0 {
            assert(c@.take(i + 1)[i - 1] == c@[i - 1]);
        }
        let w = white_space(c[i]);
        if !w && prev_white && n < 0xC8_0000_0000 {
            n = n + 1;
        }
        prev_white = w;
        i += 1;
    }
    assert(c@.take(c@.len() as int) =~= c@);
    n
}

fn add_capped(a: u64, b: u64) -> (r: u64)
    requires
        a <= word_cap(),
        b <= word_cap(),
    ensures
        r == if a + b < word_cap() { a + b } else { word_cap() as int },
{
    if a + b < 0xC8_0000_0000 { a + b } else { 0xC8_0000_0000 }
}

proof fn lemma_capped_add(x: nat, y: nat)
    ensures
        capped(x + y) == if capped(x) + capped(y) < word_cap() { capped(x) + capped(y) } else { word_cap() as nat },
{
}

fn node_word_count(n: &Node) -> (r: u64)
    ensures
        r == capped(node_words(super::node_view(*n))),
    decreases *n, 1nat,
{
    match n {
        Node::Text { value } => text_words(value),
        Node::InlineCode { value } => text_words(value),
        Node::Heading { children, .. } => nodes_word_count(children),
        Node::Paragraph { children } => nodes_word_count(children),
        Node::Emphasis { children } => nodes_word_count(children),
        Node::Strong { children } => nodes_word_count(children),
        Node::Link { children, .. } => nodes_word_count(children),
        Node::Blockquote { children } => nodes_word_count(children),
        Node::Html { children, .. } => nodes_word_count(children),
        Node::Component { children, .. } => nodes_word_count(children),
        Node::List { items, .. } => items_word_count(items),
        _ => 0,
    }
}

fn nodes_word_count(nodes: &Vec<Node>) -> (r: u64)
    ensures
        r == capped(seq_words(nodes_view(nodes@))),
    decreases nodes@, 0nat,
{
    let mut total: u64 = 0;
    let mut i: usize = 0;
    while i < nodes.len()
        invariant
            i <= nodes@.len(),
            total == capped(seq_words(nodes_view(nodes@.take(i as int)))),
        decreases nodes@.len() - i,
    {
        assert(nodes@.take(i + 1).drop_last() =~= nodes@.take(i as int));
        let ghost s1 = nodes_view(nodes@.take(i + 1));
        assert(s1 == nodes_view(nodes@.take(i as int)).push(super::node_view(nodes@[i as int])));
        assert(s1.drop_last() =~= nodes_view(nodes@.take(i as int)));
        let w = node_word_count(&nodes[i]);
        proof {
            lemma_capped_add(
                seq_words(nodes_view(nodes@.take(i as int))),
                node_words(super::node_view(nodes@[i as int])),
            );
        }
        total = add_capped(total, w);
        i += 1;
    }
    assert(nodes@.take(nodes@.len() as int) =~= nodes@);
    total
}

fn items_word_count(items: &Vec<ListItem>) -> (r: u64)
    ensures
        r == capped(items_words(super::items_view(items@))),
    decreases items@, 0nat,
{
    let mut total: u64 = 0;
    let mut i: usize = 0;
    while i < items.len()
        invariant
            i <= items@.len(),
            total == capped(items_words(super::items_view(items@.take(i as int)))),
        decreases items@.len() - i,
    {
        assert(items@.take(i + 1).drop_last() =~= items@.take(i as int));
        let ghost s1 = super::items_view(items@.take(i + 1));
        assert(s1 == super::items_view(items@.take(i as int)).push(nodes_view(items@[i as int].children@)));
        assert(s1.drop_last() =~= super::items_view(items@.take(i as int)));
        let w = nodes_word_count(&items[i].children);
        proof {
            lemma_capped_add(
                items_words(super::items_view(items@.take(i as int))),
                seq_words(nodes_view(items@[i as int].children@)),
            );
        }
        total = add_capped(total, w);
        i += 1;
    }
    assert(items@.take(items@.len() as int) =~= items@);
    total
}

/// Estimated read time at about 200 words a minute, code blocks excluded.
/// Floors at one minute: a wordless post never shows "0 min".
pub fn reading_minutes(ast: &[Node]) -> (r: u32)
    ensures
        r == minutes_for(seq_words(nodes_view(ast@))),
{
    let mut words: u64 = 0;
    let mut i: usize = 0;
    while i < ast.len()
        invariant
            i <= ast@.len(),
            words == capped(seq_words(nodes_view(ast@.take(i as int)))),
        decreases ast@.len() - i,
    {
        assert(ast@.take(i + 1).drop_last() =~= ast@.take(i as int));
        let ghost s1 = nodes_view(ast@.take(i + 1));
        assert(s1 == nodes_view(ast@.take(i as int)).push(super::node_view(ast@[i as int])));
        assert(s1.drop_last() =~= nodes_view(ast@.take(i as int)));
        let w = node_word_count(&ast[i]);
        proof {
            lemma_capped_add(
                seq_words(nodes_view(ast@.take(i as int))),
                node_words(super::node_view(ast@[i as int])),
            );
        }
        words = add_capped(words, w);
        i += 1;
    }
    assert(ast@.take(ast@.len() as int) =~= ast@);
    let m: u64 = if words == 0 { 1 } else { (words + 199) / 200 };
    if m > 0xFFFF_FFFF {
        u32::MAX
    } else {
        m as u32
    }
}

/// The display name of month `m` (1 is January).
pub open spec fn month_name(m: nat) -> Seq<char> {
    if m == 1 { "jan"@ } else if m == 2 { "feb"@ } else if m == 3 { "mar"@ } else if m == 4 { "apr"@ }
    else if m == 5 { "may"@ } else if m == 6 { "jun"@ } else if m == 7 { "jul"@ } else if m == 8 { "aug"@ }
    else if m == 9 { "sep"@ } else if m == 10 { "oct"@ } else if m == 11 { "nov"@ } else { "dec"@ }
}

pub open spec fn ascii_digits(s: Seq<char>, len: nat) -> bool {
    s.len() == len && forall|i: int| 0 <= i < s.len() ==> '0' <= #[trigger] s[i] && s[i] <= '9'
}

/// `YYYY-MM-DD` as `mon DD, YYYY`; anything off that shape unchanged.
pub open spec fn date_display(iso: Seq<char>) -> Seq<char> {
    let parts = split_on(iso, '-');
    if parts.len() == 3 && ascii_digits(parts[0], 4) && ascii_digits(parts[1], 2)
        && ascii_digits(parts[2], 2) && 1 <= digits_value(parts[1]) <= 12 {
        month_name(digits_value(parts[1])) + " "@ + parts[2] + ", "@ + parts[0]
    } else {
        iso
    }
}

fn is_ascii_digits(s: &Vec<char>, len: usize) -> (r: bool)
    ensures
        r == ascii_digits(s@, len as nat),
{
    if s.len() != len {
        return false;
    }
    let mut i: usize = 0;
    while i < s.len()
        invariant
            i <= s@.len(),
            forall|j: int| 0 <= j < i ==> '0' <= #[trigger] s@[j] && s@[j] <= '9',
        decreases s@.len() - i,
    {
        if !('0' <= s[i] && s[i] <= '9') {
            return false;
        }
        i += 1;
    }
    true
}

fn month_text(m: u32) -> (r: &'static str)
    requires
        1 <= m <= 12,
    ensures
        r@ == month_name(m as nat),
{
    if m == 1 { "jan" } else if m == 2 { "feb" } else if m == 3 { "mar" } else if m == 4 { "apr" }
    else if m == 5 { "may" } else if m == 6 { "jun" } else if m == 7 { "jul" } else if m == 8 { "aug" }
    else if m == 9 { "sep" } else if m == 10 { "oct" } else if m == 11 { "nov" } else { "dec" }
}

/// `YYYY-MM-DD` → `jul 04, 2026`. Anything off that shape passes through
/// unchanged: display formatting never fails on stored data.
pub fn format_date(iso: &str) -> (r: String)
    ensures
        r@ == date_display(iso@),
{
    let c = chars_of(iso);
    let parts = split_chars(&c, '-');
    if parts.len() != 3 {
        return crate::text::owned(iso);
    }
    let year = &parts[0];
    let month = &parts[1];
    let day = &parts[2];
    if !(is_ascii_digits(year, 4) && is_ascii_digits(month, 2) && is_ascii_digits(day, 2)) {
        return crate::text::owned(iso);
    }
    let m: u32 = ((month[0] as u32 - '0' as u32) * 10 + (month[1] as u32 - '0' as u32)) as u32;
    proof {
        let p = month@;
        assert(p.drop_last() =~= seq![p[0]]);
        assert(seq![p[0]].drop_last() =~= Seq::<char>::empty());
        assert(digits_value(Seq::<char>::empty()) == 0);
        assert(digits_value(seq![p[0]]) == (p[0] as nat - '0' as nat) as nat);
        assert(digits_value(p) == digits_value(seq![p[0]]) * 10 + (p[1] as nat - '0' as nat) as nat);
        assert(digits_value(p) == m);
    }
    if m < 1 || m > 12 {
        return crate::text::owned(iso);
    }
    let mut r = crate::text::owned(month_text(m));
    push_text(&mut r, " ");
    push_text(&mut r, &crate::text::string_of(day));
    push_text(&mut r, ", ");
    push_text(&mut r, &crate::text::string_of(year));
    r
}

/// A read time is never under a minute, and is the whole number of minutes
/// that covers the words at 200 a minute: enough minutes for every word,
/// and one minute fewer would not be.
pub proof fn law_read_time_floors_and_rounds_up(words: nat)
    ensures
        minutes_for(words) >= 1,
        words <= 200 * (u32::MAX as nat) ==> minutes_for(words) * 200 >= words,
        0 < words <= 200 * (u32::MAX as nat) ==> (minutes_for(words) - 1) * 200 < words,
{
    if words > 0 {
        let m = (words + 199) / 200;
        assert(m >= 1) by (nonlinear_arith)
            requires
                words > 0,
                m == (words + 199) / 200;
        if words <= 200 * (u32::MAX as nat) {
            assert(m <= u32::MAX) by (nonlinear_arith)
                requires
                    words <= 200 * (u32::MAX as nat),
                    m == (words + 199) / 200;
            assert(m * 200 >= words && (m - 1) * 200 < words) by (nonlinear_arith)
                requires
                    m == (words + 199) / 200,
                    words > 0;
        }
    }
}

proof fn lemma_split_on_plain(a: Seq<char>, q: Seq<char>, c: char)
    requires
        forall|i: int| 0 <= i < q.len() ==> q[i] != c,
    ensures
        split_on(a + q, c) == split_on(a, c).update(split_on(a, c).len() - 1, split_on(a, c).last() + q),
        split_on(a + q, c).len() == split_on(a, c).len(),
    decreases q.len(),
{
    crate::text::lemma_split_on_nonempty(a, c);
    let s = split_on(a, c);
    if q.len() == 0 {
        assert(a + q =~= a);
        assert(s.last() + q =~= s.last());
        assert(s.update(s.len() - 1, s.last()) =~= s);
    } else {
        let q0 = q.drop_last();
        lemma_split_on_plain(a, q0, c);
        assert((a + q).drop_last() =~= a + q0);
        assert((a + q).last() == q.last());
        let p = split_on(a + q0, c);
        assert(p.last() == s.last() + q0);
        assert((s.last() + q0).push(q.last()) =~= s.last() + q);
        assert(p.update(p.len() - 1, p.last().push(q.last())) =~= s.update(s.len() - 1, s.last() + q));
    }
}

proof fn lemma_split_on_sep(a: Seq<char>, c: char)
    ensures
        split_on(a + seq![c], c) == split_on(a, c).push(Seq::<char>::empty()),
{
    assert((a + seq![c]).drop_last() =~= a);
}

/// Every well-shaped `YYYY-MM-DD` with a month from 01 to 12 displays as
/// the month's short name, the day and the year, `mon DD, YYYY`, with a
/// name for each of the twelve months; so the display is never the date
/// as stored.
pub proof fn law_dates_display_with_their_month_name(y: Seq<char>, mm: Seq<char>, dd: Seq<char>)
    requires
        ascii_digits(y, 4),
        ascii_digits(mm, 2),
        ascii_digits(dd, 2),
        1 <= digits_value(mm) <= 12,
    ensures
        date_display(y + seq!['-'] + mm + seq!['-'] + dd)
            == seq!["jan"@, "feb"@, "mar"@, "apr"@, "may"@, "jun"@, "jul"@, "aug"@, "sep"@, "oct"@, "nov"@, "dec"@][digits_value(mm) - 1]
                + " "@ + dd + ", "@ + y,
        date_display(y + seq!['-'] + mm + seq!['-'] + dd) != y + seq!['-'] + mm + seq!['-'] + dd,
{
    let c = '-';
    assert forall|i: int| 0 <= i < y.len() implies y[i] != c by { assert('0' <= y[i]); }
    assert forall|i: int| 0 <= i < mm.len() implies mm[i] != c by { assert('0' <= mm[i]); }
    assert forall|i: int| 0 <= i < dd.len() implies dd[i] != c by { assert('0' <= dd[i]); }
    let e = Seq::<char>::empty();
    lemma_split_on_plain(e, y, c);
    assert(e + y =~= y);
    assert(split_on(e, c) =~= seq![e]);
    assert(split_on(y, c) =~= seq![y]);
    lemma_split_on_sep(y, c);
    let a1 = y + seq![c];
    lemma_split_on_plain(a1, mm, c);
    assert(split_on(a1 + mm, c) =~= seq![y, mm]);
    lemma_split_on_sep(a1 + mm, c);
    let a2 = a1 + mm + seq![c];
    lemma_split_on_plain(a2, dd, c);
    assert(split_on(a2 + dd, c) =~= seq![y, mm, dd]);
    let v = digits_value(mm);
    let names = seq!["jan"@, "feb"@, "mar"@, "apr"@, "may"@, "jun"@, "jul"@, "aug"@, "sep"@, "oct"@, "nov"@, "dec"@];
    assert(month_name(v) == names[v - 1]);
    reveal_strlit("jan");
    reveal_strlit("feb");
    reveal_strlit("mar");
    reveal_strlit("apr");
    reveal_strlit("may");
    reveal_strlit("jun");
    reveal_strlit("jul");
    reveal_strlit("aug");
    reveal_strlit("sep");
    reveal_strlit("oct");
    reveal_strlit("nov");
    reveal_strlit("dec");
    reveal_strlit(" ");
    reveal_strlit(", ");
    assert(names[v - 1].len() == 3);
    assert(date_display(a2 + dd).len() == 12);
}

} // verus!
