//! Skeleton renderer: a deterministic, token-budgeted text map.
//!
//! For each ranked file that defines something, a block is printed: the file
//! name, then one line per definition line (`    <line>: <name>`, 1-based),
//! lines ascending, with `    ...` where lines are skipped.  Blocks are taken
//! greedily in rank order until the next one would push the token count over
//! the budget; the blocks taken never exceed the budget.  Tokens are those
//! of the cl100k_base tokenizer.
use vstd::prelude::*;

use crate::tags::{tag_views, Tag, TagKind, TagView};
use crate::text::{
    chars_equal, chars_less, chars_lt, chars_of, decimal, decimal_chars, lemma_chars_lt_asymmetric,
    lemma_chars_lt_irreflexive, lemma_chars_lt_total, lemma_chars_lt_transitive, lemma_sorted_unique,
    push_chars, push_str, sorted_by, string_views,
};

verus! {

/// The number of cl100k_base tokens that `text` encodes to (ordinary
/// encoding, special tokens treated as text).
pub uninterp spec fn cl100k_token_count(text: Seq<char>) -> nat;

/// Count the tokens of `text` with the cl100k_base tokenizer
/// (`CoreBPE::encode_ordinary(text).len()`, on the process-wide tokenizer of
/// `cl100k_base_singleton`).  The result is named `cl100k_token_count`.  A
/// non-empty text has at least one token: the splitting pattern matches
/// every character (letters, digits, other symbols, white space) and every
/// piece encodes to at least one token.
#[verifier::external_body]
pub fn count_tokens(text: &str) -> (n: usize)
    ensures
        n == cl100k_token_count(text@),
        text@.len() > 0 ==> n > 0,
{
    tiktoken_rs::cl100k_base_singleton().lock().encode_ordinary(text).len()
}

/// File `f` has a definition tag at `line` named `name`.
pub open spec fn def_at(tags: Seq<TagView>, f: Seq<char>, line: usize, name: Seq<char>) -> bool {
    exists|k: int|
        0 <= k < tags.len() && #[trigger] tags[k].kind == TagKind::Def && tags[k].rel_fname == f
            && tags[k].line == line && tags[k].name == name
}

/// Some definition tag of file `f` among the first `n` tags has line `e.0`
/// and name `e.1`.
#[verifier::opaque]
pub open spec fn defined_on(tags: Seq<TagView>, f: Seq<char>, n: int, e: (usize, Seq<char>)) -> bool {
    exists|k: int|
        0 <= k < n && #[trigger] tags[k].kind == TagKind::Def && tags[k].rel_fname == f
            && tags[k].line == e.0 && tags[k].name == e.1
}

/// `lines` has an entry on the line of tag `t` whose name is not above the
/// tag's name.
#[verifier::opaque]
pub open spec fn covers(lines: Seq<(usize, Seq<char>)>, t: TagView) -> bool {
    exists|i: int| 0 <= i < lines.len() && (#[trigger] lines[i]).0 == t.line && !chars_lt(t.name, lines[i].1)
}

/// `lines` lists the definition lines of file `f` among the first `n` tags:
/// each line once, ascending, with the least name (in code-point order)
/// defined on it.
pub open spec fn is_def_lines_upto(tags: Seq<TagView>, f: Seq<char>, lines: Seq<(usize, Seq<char>)>, n: int) -> bool {
    &&& forall|i: int, j: int| 0 <= i < j < lines.len() ==> (#[trigger] lines[i]).0 < (#[trigger] lines[j]).0
    &&& forall|i: int| 0 <= i < lines.len() ==> defined_on(tags, f, n, #[trigger] lines[i])
    &&& forall|k: int|
        0 <= k < n && (#[trigger] tags[k]).kind == TagKind::Def && tags[k].rel_fname == f ==> covers(lines, tags[k])
}

/// `lines` lists the definition lines of file `f`.
pub open spec fn is_def_lines(tags: Seq<TagView>, f: Seq<char>, lines: Seq<(usize, Seq<char>)>) -> bool {
    is_def_lines_upto(tags, f, lines, tags.len() as int)
}

/// The definition lines of file `f`, ascending, with their least names.
pub open spec fn def_lines(tags: Seq<TagView>, f: Seq<char>) -> Seq<(usize, Seq<char>)> {
    choose|lines: Seq<(usize, Seq<char>)>| is_def_lines(tags, f, lines)
}

/// The text for entry `i` of a block's lines: a `    ...` marker when lines
/// were skipped since the previous entry, then the 1-based line and the name.
pub open spec fn line_entry(lines: Seq<(usize, Seq<char>)>, i: int) -> Seq<char> {
    let gap = if i > 0 && lines[i].0 > lines[i - 1].0 + 1 {
        "    ...\n"@
    } else {
        Seq::empty()
    };
    gap + "    "@ + decimal((lines[i].0 + 1) as nat) + ": "@ + lines[i].1 + "\n"@
}

/// The texts of the first `n` entries.
pub open spec fn line_entries(lines: Seq<(usize, Seq<char>)>, n: int) -> Seq<char>
    decreases n,
{
    if n <= 0 {
        Seq::empty()
    } else {
        line_entries(lines, n - 1) + line_entry(lines, n - 1)
    }
}

/// The block of file `f` with definition lines `lines`.
pub open spec fn file_block(f: Seq<char>, lines: Seq<(usize, Seq<char>)>) -> Seq<char> {
    f + "\n"@ + line_entries(lines, lines.len() as int)
}

/// The blocks of the ranked files that define something, in rank order.
pub open spec fn candidate_blocks(ranked: Seq<Seq<char>>, tags: Seq<TagView>) -> Seq<Seq<char>>
    decreases ranked.len(),
{
    if ranked.len() == 0 {
        Seq::empty()
    } else {
        let prev = candidate_blocks(ranked.drop_last(), tags);
        let lines = def_lines(tags, ranked.last());
        if lines.len() == 0 {
            prev
        } else {
            prev.push(file_block(ranked.last(), lines))
        }
    }
}

/// The token count of each block.
pub open spec fn token_counts(blocks: Seq<Seq<char>>) -> Seq<nat> {
    blocks.map_values(|b: Seq<char>| cl100k_token_count(b))
}

/// The sum of a sequence of counts.
pub open spec fn total(counts: Seq<nat>) -> nat
    decreases counts.len(),
{
    if counts.len() == 0 {
        0
    } else {
        total(counts.drop_last()) + counts.last()
    }
}

/// How many of the blocks (with these token counts) the greedy budget check
/// takes: blocks are taken in order while the running total stays within the
/// budget; the first block that would push it over ends the taking.
pub open spec fn greedy_take(counts: Seq<nat>, budget: nat) -> nat
    decreases counts.len(),
{
    if counts.len() == 0 {
        0
    } else {
        let prev = counts.drop_last();
        let m = greedy_take(prev, budget);
        if m < prev.len() {
            m
        } else if total(prev) + counts.last() > budget {
            m
        } else {
            m + 1
        }
    }
}

/// The concatenation of a sequence of texts.
pub open spec fn concat(blocks: Seq<Seq<char>>) -> Seq<char>
    decreases blocks.len(),
{
    if blocks.len() == 0 {
        Seq::empty()
    } else {
        concat(blocks.drop_last()) + blocks.last()
    }
}

/// The rendered map: the candidate blocks that the greedy budget check
/// takes, concatenated.
pub open spec fn rendered(ranked: Seq<Seq<char>>, tags: Seq<TagView>, budget: nat) -> Seq<char> {
    let blocks = candidate_blocks(ranked, tags);
    concat(blocks.take(greedy_take(token_counts(blocks), budget) as int))
}

/// The views of definition lines.
pub open spec fn lines_view(lines: Seq<(usize, Vec<char>)>) -> Seq<(usize, Seq<char>)> {
    lines.map_values(|e: (usize, Vec<char>)| (e.0, e.1@))
}

/// Two line lists for the same file and tags are equal.
pub proof fn lemma_def_lines_unique(
    tags: Seq<TagView>,
    f: Seq<char>,
    a: Seq<(usize, Seq<char>)>,
    b: Seq<(usize, Seq<char>)>,
)
    requires
        is_def_lines(tags, f, a),
        is_def_lines(tags, f, b),
    ensures
        a == b,
{
    let lt = |x: (usize, Seq<char>), y: (usize, Seq<char>)| x.0 < y.0;
    assert forall|x: (usize, Seq<char>)| a.contains(x) implies b.contains(x) by {
        lemma_def_lines_contains(tags, f, a, b, x);
    }
    assert forall|x: (usize, Seq<char>)| b.contains(x) implies a.contains(x) by {
        lemma_def_lines_contains(tags, f, b, a, x);
    }
    assert(sorted_by(a, lt));
    assert(sorted_by(b, lt));
    lemma_sorted_unique(a, b, lt);
}

proof fn lemma_def_lines_contains(
    tags: Seq<TagView>,
    f: Seq<char>,
    a: Seq<(usize, Seq<char>)>,
    b: Seq<(usize, Seq<char>)>,
    x: (usize, Seq<char>),
)
    requires
        is_def_lines(tags, f, a),
        is_def_lines(tags, f, b),
        a.contains(x),
    ensures
        b.contains(x),
{
    let n = tags.len() as int;
    let i = choose|i: int| 0 <= i < a.len() && a[i] == x;
    assert(defined_on(tags, f, n, a[i]));
    let k = witness_of(tags, f, n, a[i]);
    assert(covers(b, tags[k]));
    let j = cover_of(b, tags[k]);
    assert(defined_on(tags, f, n, b[j]));
    let k2 = witness_of(tags, f, n, b[j]);
    assert(covers(a, tags[k2]));
    let i2 = cover_of(a, tags[k2]);
    if i2 < i {
        assert(a[i2].0 < a[i].0);
    } else if i < i2 {
        assert(a[i].0 < a[i2].0);
    }
    assert(!chars_lt(x.1, b[j].1));
    assert(!chars_lt(b[j].1, x.1));
    lemma_chars_lt_total(x.1, b[j].1);
    assert(b[j] == x);
}

/// A tag that witnesses `defined_on`.
proof fn witness_of(tags: Seq<TagView>, f: Seq<char>, n: int, e: (usize, Seq<char>)) -> (k: int)
    requires
        defined_on(tags, f, n, e),
    ensures
        0 <= k < n,
        tags[k].kind == TagKind::Def,
        tags[k].rel_fname == f,
        tags[k].line == e.0,
        tags[k].name == e.1,
{
    reveal(defined_on);
    choose|k: int|
        0 <= k < n && #[trigger] tags[k].kind == TagKind::Def && tags[k].rel_fname == f
            && tags[k].line == e.0 && tags[k].name == e.1
}

/// An entry that witnesses `covers`.
proof fn cover_of(lines: Seq<(usize, Seq<char>)>, t: TagView) -> (i: int)
    requires
        covers(lines, t),
    ensures
        0 <= i < lines.len(),
        lines[i].0 == t.line,
        !chars_lt(t.name, lines[i].1),
{
    reveal(covers);
    choose|i: int| 0 <= i < lines.len() && (#[trigger] lines[i]).0 == t.line && !chars_lt(t.name, lines[i].1)
}

/// The tags before `k` still witness what they witnessed.
proof fn lemma_defined_on_grows(tags: Seq<TagView>, f: Seq<char>, k: int, e: (usize, Seq<char>))
    requires
        defined_on(tags, f, k, e),
    ensures
        defined_on(tags, f, k + 1, e),
{
    reveal(defined_on);
}

/// Tag `k` witnesses its own line and name.
proof fn lemma_defined_on_tag(tags: Seq<TagView>, f: Seq<char>, k: int)
    requires
        0 <= k < tags.len(),
        tags[k].kind == TagKind::Def,
        tags[k].rel_fname == f,
    ensures
        defined_on(tags, f, k + 1, (tags[k].line, tags[k].name)),
{
    reveal(defined_on);
    assert(tags[k].kind == TagKind::Def);
}

proof fn lemma_replace_keeps_lines(tags: Seq<TagView>, f: Seq<char>, lines: Seq<(usize, Seq<char>)>, k: int, p: int)
    requires
        0 <= k < tags.len(),
        tags[k].kind == TagKind::Def,
        tags[k].rel_fname == f,
        0 <= p < lines.len(),
        lines[p].0 == tags[k].line,
        chars_lt(tags[k].name, lines[p].1),
        is_def_lines_upto(tags, f, lines, k),
    ensures
        is_def_lines_upto(tags, f, lines.update(p, (tags[k].line, tags[k].name)), k + 1),
{
    let after = lines.update(p, (tags[k].line, tags[k].name));
    assert forall|i: int| 0 <= i < after.len() implies defined_on(tags, f, k + 1, #[trigger] after[i]) by {
        if i == p {
            lemma_defined_on_tag(tags, f, k);
        } else {
            assert(defined_on(tags, f, k, lines[i]));
            lemma_defined_on_grows(tags, f, k, lines[i]);
        }
    }
    assert forall|m: int|
        0 <= m < k + 1 && (#[trigger] tags[m]).kind == TagKind::Def && tags[m].rel_fname == f implies covers(after, tags[m]) by {
        reveal(covers);
        if m == k {
            assert(after[p].0 == tags[m].line);
            lemma_chars_lt_irreflexive(tags[m].name);
        } else {
            assert(covers(lines, tags[m]));
            let i = choose|i: int| 0 <= i < lines.len() && (#[trigger] lines[i]).0 == tags[m].line && !chars_lt(tags[m].name, lines[i].1);
            if i == p {
                // the new name is below the old one, which is not above this tag's name
                lemma_chars_lt_total(tags[m].name, lines[p].1);
                if chars_lt(lines[p].1, tags[m].name) {
                    lemma_chars_lt_transitive(tags[k].name, lines[p].1, tags[m].name);
                }
                lemma_chars_lt_asymmetric(tags[k].name, tags[m].name);
                assert(!chars_lt(tags[m].name, after[p].1));
                assert(after[p].0 == tags[m].line);
            } else {
                assert(after[i] == lines[i]);
            }
        }
    }
    assert forall|i: int, j: int| 0 <= i < j < after.len() implies (#[trigger] after[i]).0 < (#[trigger] after[j]).0 by {
        assert(lines[i].0 < lines[j].0);
    }
}

proof fn lemma_skip_keeps_lines(tags: Seq<TagView>, f: Seq<char>, lines: Seq<(usize, Seq<char>)>, k: int, p: int)
    requires
        0 <= k < tags.len(),
        tags[k].kind == TagKind::Def,
        tags[k].rel_fname == f,
        0 <= p < lines.len(),
        lines[p].0 == tags[k].line,
        !chars_lt(tags[k].name, lines[p].1),
        is_def_lines_upto(tags, f, lines, k),
    ensures
        is_def_lines_upto(tags, f, lines, k + 1),
{
    assert forall|i: int| 0 <= i < lines.len() implies defined_on(tags, f, k + 1, #[trigger] lines[i]) by {
        lemma_defined_on_grows(tags, f, k, lines[i]);
    }
    assert forall|m: int|
        0 <= m < k + 1 && (#[trigger] tags[m]).kind == TagKind::Def && tags[m].rel_fname == f implies covers(lines, tags[m]) by {
        if m == k {
            reveal(covers);
            assert(lines[p].0 == tags[m].line);
        }
    }
}

proof fn lemma_insert_keeps_lines(tags: Seq<TagView>, f: Seq<char>, lines: Seq<(usize, Seq<char>)>, k: int, p: int)
    requires
        0 <= k < tags.len(),
        tags[k].kind == TagKind::Def,
        tags[k].rel_fname == f,
        0 <= p <= lines.len(),
        forall|q: int| 0 <= q < p ==> (#[trigger] lines[q]).0 < tags[k].line,
        p < lines.len() ==> lines[p].0 > tags[k].line,
        is_def_lines_upto(tags, f, lines, k),
    ensures
        is_def_lines_upto(tags, f, lines.insert(p, (tags[k].line, tags[k].name)), k + 1),
{
    let after = lines.insert(p, (tags[k].line, tags[k].name));
    assert forall|i: int| 0 <= i < after.len() implies defined_on(tags, f, k + 1, #[trigger] after[i]) by {
        if i == p {
            lemma_defined_on_tag(tags, f, k);
        } else {
            let li = if i < p { i } else { i - 1 };
            assert(after[i] == lines[li]);
            assert(defined_on(tags, f, k, lines[li]));
            lemma_defined_on_grows(tags, f, k, lines[li]);
        }
    }
    assert forall|m: int|
        0 <= m < k + 1 && (#[trigger] tags[m]).kind == TagKind::Def && tags[m].rel_fname == f implies covers(after, tags[m]) by {
        reveal(covers);
        if m == k {
            assert(after[p].0 == tags[m].line);
            lemma_chars_lt_irreflexive(tags[m].name);
        } else {
            assert(covers(lines, tags[m]));
            let i = choose|i: int| 0 <= i < lines.len() && (#[trigger] lines[i]).0 == tags[m].line && !chars_lt(tags[m].name, lines[i].1);
            if i < p {
                assert(after[i] == lines[i]);
            } else {
                assert(after[i + 1] == lines[i]);
            }
        }
    }
    assert forall|i: int, j: int| 0 <= i < j < after.len() implies (#[trigger] after[i]).0 < (#[trigger] after[j]).0 by {
        if j < p {
            assert(lines[i].0 < lines[j].0);
        } else if j == p {
            assert(after[i] == lines[i]);
        } else if i < p {
            assert(after[i] == lines[i]);
            assert(after[j] == lines[j - 1]);
            if j - 1 > p {
                assert(lines[p].0 < lines[j - 1].0);
            }
        } else if i == p {
            assert(after[j] == lines[j - 1]);
            if j - 1 > p {
                assert(lines[p].0 < lines[j - 1].0);
            }
        } else {
            assert(lines[i - 1].0 < lines[j - 1].0);
        }
    }
}

/// A tag that is not a definition of `f` leaves a line list as it was.
proof fn lemma_other_keeps_lines(tags: Seq<TagView>, f: Seq<char>, lines: Seq<(usize, Seq<char>)>, k: int)
    requires
        0 <= k < tags.len(),
        !(tags[k].kind == TagKind::Def && tags[k].rel_fname == f),
        is_def_lines_upto(tags, f, lines, k),
    ensures
        is_def_lines_upto(tags, f, lines, k + 1),
{
    assert forall|i: int| 0 <= i < lines.len() implies defined_on(tags, f, k + 1, #[trigger] lines[i]) by {
        lemma_defined_on_grows(tags, f, k, lines[i]);
    }
}

/// The definition lines of file `f`: each line once, ascending, with the
/// least name defined on it.
fn file_def_lines(
    Ghost(tags): Ghost<Seq<TagView>>,
    all_tags: &[Tag],
    tag_files: &Vec<Vec<char>>,
    f: &Vec<char>,
) -> (lines: Vec<(usize, Vec<char>)>)
    requires
        tags == tag_views(all_tags@),
        tag_files.len() == all_tags.len(),
        forall|k: int| 0 <= k < all_tags.len() ==> (#[trigger] tag_files@[k])@ == tags[k].rel_fname,
    ensures
        is_def_lines(tags, f@, lines_view(lines@)),
{
    let mut lines: Vec<(usize, Vec<char>)> = Vec::new();
    let mut k: usize = 0;
    while k < all_tags.len()
        invariant
            k <= all_tags.len(),
            tags == tag_views(all_tags@),
            tag_files.len() == all_tags.len(),
            forall|m: int| 0 <= m < all_tags.len() ==> (#[trigger] tag_files@[m])@ == tags[m].rel_fname,
            is_def_lines_upto(tags, f@, lines_view(lines@), k as int),
        decreases all_tags.len() - k,
    {
        let is_def = match all_tags[k].kind {
            TagKind::Def => true,
            TagKind::Ref => false,
        };
        let ghost before = lines_view(lines@);
        assert(tags[k as int] == all_tags@[k as int]@);
        if is_def && chars_equal(&tag_files[k], f) {
            let l = all_tags[k].line;
            let n = chars_of(all_tags[k].name.as_str());
            let mut p: usize = 0;
            while p < lines.len() && lines[p].0 < l
                invariant
                    p <= lines.len(),
                    forall|q: int| 0 <= q < p ==> (#[trigger] lines@[q]).0 < l,
                decreases lines.len() - p,
            {
                p = p + 1;
            }
            if p < lines.len() && lines[p].0 == l {
                if chars_less(&n, &lines[p].1) {
                    lines.set(p, (l, n));
                    proof {
                        assert(lines_view(lines@) =~= before.update(p as int, (l, n@)));
                        lemma_replace_keeps_lines(tags, f@, before, k as int, p as int);
                    }
                } else {
                    proof {
                        lemma_skip_keeps_lines(tags, f@, before, k as int, p as int);
                    }
                }
            } else {
                proof {
                    assert forall|q: int| 0 <= q < p implies (#[trigger] before[q]).0 < l by {
                        assert(lines@[q].0 < l);
                    }
                    if p < lines.len() {
                        assert(lines@[p as int].0 >= l);
                    }
                }
                lines.insert(p, (l, n));
                proof {
                    assert(lines_view(lines@) =~= before.insert(p as int, (l, n@)));
                    lemma_insert_keeps_lines(tags, f@, before, k as int, p as int);
                }
            }
        } else {
            proof {
                lemma_other_keeps_lines(tags, f@, before, k as int);
            }
        }
        k = k + 1;
    }
    lines
}

/// Any line list is the line list.
proof fn lemma_is_the_def_lines(tags: Seq<TagView>, f: Seq<char>, lines: Seq<(usize, Seq<char>)>)
    requires
        is_def_lines(tags, f, lines),
    ensures
        def_lines(tags, f) == lines,
{
    lemma_def_lines_unique(tags, f, def_lines(tags, f), lines);
}

/// The block of file `f` with definition lines `lines`.
fn make_block(f: &str, lines: &Vec<(usize, Vec<char>)>) -> (b: String)
    requires
        forall|i: int| 0 <= i < lines.len() ==> (#[trigger] lines@[i]).0 < usize::MAX,
        forall|i: int, j: int| 0 <= i < j < lines.len() ==> (#[trigger] lines@[i]).0 < (#[trigger] lines@[j]).0,
    ensures
        b@ == file_block(f@, lines_view(lines@)),
{
    let ghost lv = lines_view(lines@);
    let mut b = String::new();
    push_str(&mut b, f);
    push_str(&mut b, "\n");
    let mut i: usize = 0;
    while i < lines.len()
        invariant
            i <= lines.len(),
            lv == lines_view(lines@),
            forall|q: int| 0 <= q < lines.len() ==> (#[trigger] lines@[q]).0 < usize::MAX,
            b@ == f@ + "\n"@ + line_entries(lv, i as int),
        decreases lines.len() - i,
    {
        let ghost before = b@;
        if i > 0 && lines[i].0 > lines[i - 1].0 + 1 {
            push_str(&mut b, "    ...\n");
        }
        push_str(&mut b, "    ");
        let digits = decimal_chars(lines[i].0 + 1);
        push_chars(&mut b, &digits);
        push_str(&mut b, ": ");
        push_chars(&mut b, &lines[i].1);
        push_str(&mut b, "\n");
        assert(b@ =~= before + line_entry(lv, i as int));
        i = i + 1;
    }
    b
}

/// Once the greedy check has stopped within a prefix, the rest changes
/// nothing.
proof fn lemma_greedy_stays(counts: Seq<nat>, budget: nat, n: int)
    requires
        0 <= n <= counts.len(),
        greedy_take(counts.take(n), budget) < n,
    ensures
        greedy_take(counts, budget) == greedy_take(counts.take(n), budget),
    decreases counts.len() - n,
{
    if n == counts.len() {
        assert(counts.take(n) =~= counts);
    } else {
        let prev = counts.drop_last();
        assert(prev.take(n) =~= counts.take(n));
        lemma_greedy_stays(prev, budget, n);
    }
}

/// The candidate blocks of a prefix of the ranking are a prefix of the
/// candidate blocks of the whole ranking.
proof fn lemma_candidates_prefix(ranked: Seq<Seq<char>>, tags: Seq<TagView>, i: int)
    requires
        0 <= i <= ranked.len(),
    ensures
        candidate_blocks(ranked.take(i), tags).len() <= candidate_blocks(ranked, tags).len(),
        candidate_blocks(ranked, tags).take(candidate_blocks(ranked.take(i), tags).len() as int)
            == candidate_blocks(ranked.take(i), tags),
    decreases ranked.len() - i,
{
    let small = candidate_blocks(ranked.take(i), tags);
    if i == ranked.len() {
        assert(ranked.take(i) =~= ranked);
        assert(small.take(small.len() as int) =~= small);
    } else {
        let prev = ranked.drop_last();
        assert(prev.take(i) =~= ranked.take(i));
        lemma_candidates_prefix(prev, tags, i);
        let big = candidate_blocks(ranked, tags);
        let pb = candidate_blocks(prev, tags);
        assert(pb.take(small.len() as int) == small);
        if def_lines(tags, ranked.last()).len() != 0 {
            assert(big == pb.push(file_block(ranked.last(), def_lines(tags, ranked.last()))));
            assert(big.take(small.len() as int) =~= pb.take(small.len() as int));
        }
    }
}

/// One more ranked file adds its block, if it defines something.
proof fn lemma_candidates_step(ranked: Seq<Seq<char>>, tags: Seq<TagView>, i: int)
    requires
        0 <= i < ranked.len(),
    ensures
        candidate_blocks(ranked.take(i + 1), tags) == (if def_lines(tags, ranked[i]).len() == 0 {
            candidate_blocks(ranked.take(i), tags)
        } else {
            candidate_blocks(ranked.take(i), tags).push(file_block(ranked[i], def_lines(tags, ranked[i])))
        }),
{
    assert(ranked.take(i + 1).drop_last() =~= ranked.take(i));
    assert(ranked.take(i + 1).last() == ranked[i]);
}

/// Counts, totals and concatenation of one more block.
proof fn lemma_push_block(blocks: Seq<Seq<char>>, b: Seq<char>)
    ensures
        token_counts(blocks.push(b)) == token_counts(blocks).push(cl100k_token_count(b)),
        total(token_counts(blocks.push(b))) == total(token_counts(blocks)) + cl100k_token_count(b),
        concat(blocks.push(b)) == concat(blocks) + b,
{
    let c = token_counts(blocks.push(b));
    assert(c =~= token_counts(blocks).push(cl100k_token_count(b)));
    assert(c.drop_last() =~= token_counts(blocks));
    assert(blocks.push(b).drop_last() =~= blocks);
}

/// Every definition tag of a ranked file has a line below `usize::MAX`, so
/// that its 1-based number is representable.
pub open spec fn ranked_lines_fit(ranked: Seq<Seq<char>>, tags: Seq<TagView>) -> bool {
    forall|k: int|
        0 <= k < tags.len() && (#[trigger] tags[k]).kind == TagKind::Def && ranked.contains(tags[k].rel_fname)
            ==> tags[k].line < usize::MAX
}

/// Render a budget-bounded skeleton map.
///
/// * `ranked` — file names, best first (the ranking's order).
/// * `all_tags` — the tags the ranking was computed from.
/// * `budget` — the token budget.
///
/// The result is the concatenation of the blocks of the ranked files that
/// define something, taken in rank order while the running token count plus
/// the next block stays within the budget; the first block that does not
/// fit ends the map.
pub fn render(ranked: &[String], all_tags: &[Tag], budget: usize) -> (r: String)
    requires
        ranked_lines_fit(string_views(ranked@), tag_views(all_tags@)),
    ensures
        r@ == rendered(string_views(ranked@), tag_views(all_tags@), budget as nat),
{
    let ghost rv = string_views(ranked@);
    let ghost tv = tag_views(all_tags@);
    let mut tag_files: Vec<Vec<char>> = Vec::new();
    let mut k: usize = 0;
    while k < all_tags.len()
        invariant
            k <= all_tags.len(),
            tv == tag_views(all_tags@),
            tag_files.len() == k,
            forall|m: int| 0 <= m < k ==> (#[trigger] tag_files@[m])@ == tv[m].rel_fname,
        decreases all_tags.len() - k,
    {
        tag_files.push(chars_of(all_tags[k].rel_fname.as_str()));
        k = k + 1;
    }
    let mut out = String::new();
    let mut used: usize = 0;
    let mut i: usize = 0;
    assert(candidate_blocks(rv.take(0), tv) =~= Seq::<Seq<char>>::empty());
    while i < ranked.len()
        invariant
            i <= ranked.len(),
            rv == string_views(ranked@),
            tv == tag_views(all_tags@),
            ranked_lines_fit(rv, tv),
            tag_files.len() == all_tags.len(),
            forall|m: int| 0 <= m < all_tags.len() ==> (#[trigger] tag_files@[m])@ == tv[m].rel_fname,
            greedy_take(token_counts(candidate_blocks(rv.take(i as int), tv)), budget as nat)
                == candidate_blocks(rv.take(i as int), tv).len(),
            out@ == concat(candidate_blocks(rv.take(i as int), tv)),
            used == total(token_counts(candidate_blocks(rv.take(i as int), tv))),
            used <= budget,
        decreases ranked.len() - i,
    {
        let ghost blocks = candidate_blocks(rv.take(i as int), tv);
        let f = chars_of(ranked[i].as_str());
        let lines = file_def_lines(Ghost(tv), all_tags, &tag_files, &f);
        proof {
            assert(f@ == rv[i as int]);
            lemma_is_the_def_lines(tv, rv[i as int], lines_view(lines@));
            lemma_candidates_step(rv, tv, i as int);
        }
        if lines.len() == 0 {
            i = i + 1;
            continue;
        }
        proof {
            let lv = lines_view(lines@);
            assert forall|q: int| 0 <= q < lines.len() implies (#[trigger] lines@[q]).0 < usize::MAX by {
                assert(lv[q] == (lines@[q].0, lines@[q].1@));
                assert(defined_on(tv, rv[i as int], tv.len() as int, lv[q]));
                let w = witness_of(tv, rv[i as int], tv.len() as int, lv[q]);
                assert(rv.contains(tv[w].rel_fname));
                assert(tv[w].kind == TagKind::Def);
            }
            assert forall|q: int, j: int| 0 <= q < j < lines.len() implies (#[trigger] lines@[q]).0 < (#[trigger] lines@[j]).0 by {
                assert(lv[q].0 < lv[j].0);
            }
        }
        let block = make_block(ranked[i].as_str(), &lines);
        let bt = count_tokens(block.as_str());
        let ghost next = blocks.push(block@);
        proof {
            lemma_push_block(blocks, block@);
        }
        if bt > budget - used {
            proof {
                let all = candidate_blocks(rv, tv);
                let counts = token_counts(all);
                lemma_candidates_prefix(rv, tv, i + 1);
                assert(all.take(next.len() as int) == next);
                assert(counts.take(next.len() as int) =~= token_counts(next));
                assert(greedy_take(token_counts(next), budget as nat) == blocks.len()) by {
                    assert(token_counts(next).drop_last() =~= token_counts(blocks));
                }
                lemma_greedy_stays(counts, budget as nat, next.len() as int);
                assert(all.take(blocks.len() as int) =~= blocks);
            }
            return out;
        }
        push_str(&mut out, block.as_str());
        used = used + bt;
        proof {
            assert(greedy_take(token_counts(next), budget as nat) == next.len()) by {
                assert(token_counts(next).drop_last() =~= token_counts(blocks));
            }
        }
        i = i + 1;
    }
    proof {
        assert(rv.take(i as int) =~= rv);
        let all = candidate_blocks(rv, tv);
        assert(all.take(all.len() as int) =~= all);
    }
    out
}

/// The greedy check never takes more than there is.
proof fn lemma_greedy_bounded(counts: Seq<nat>, budget: nat)
    ensures
        greedy_take(counts, budget) <= counts.len(),
    decreases counts.len(),
{
    if counts.len() > 0 {
        lemma_greedy_bounded(counts.drop_last(), budget);
    }
}

/// Budget, on token counts: the blocks taken fit the budget together.
pub proof fn lemma_greedy_within_budget(counts: Seq<nat>, budget: nat)
    ensures
        total(counts.take(greedy_take(counts, budget) as int)) <= budget,
    decreases counts.len(),
{
    lemma_greedy_bounded(counts, budget);
    if counts.len() > 0 {
        let prev = counts.drop_last();
        let m = greedy_take(prev, budget) as int;
        lemma_greedy_within_budget(prev, budget);
        lemma_greedy_bounded(prev, budget);
        let n = greedy_take(counts, budget) as int;
        if n == m {
            assert(counts.take(n) =~= prev.take(m));
        } else {
            assert(counts.take(n) =~= counts);
            assert(prev.take(m) =~= prev);
        }
    } else {
        assert(counts.take(0) =~= counts);
    }
}

/// Greedy, on token counts: when the check stops before the end, the next
/// block would have pushed the total over the budget.
pub proof fn lemma_greedy_stops_only_when_full(counts: Seq<nat>, budget: nat)
    ensures
        greedy_take(counts, budget) <= counts.len(),
        ({
            let n = greedy_take(counts, budget) as int;
            n < counts.len() ==> total(counts.take(n)) + counts[n] > budget
        }),
    decreases counts.len(),
{
    lemma_greedy_bounded(counts, budget);
    if counts.len() > 0 {
        let prev = counts.drop_last();
        let m = greedy_take(prev, budget) as int;
        lemma_greedy_stops_only_when_full(prev, budget);
        let n = greedy_take(counts, budget) as int;
        if n == m {
            assert(counts.take(n) =~= prev.take(m));
            if m < prev.len() {
                assert(counts[n] == prev[m]);
            } else {
                assert(prev.take(m) =~= prev);
            }
        }
    }
}

/// The rendered map fits the token budget block by block: the blocks it is
/// made of have token counts summing to at most the budget.
pub proof fn lemma_render_within_budget(ranked: Seq<Seq<char>>, tags: Seq<TagView>, budget: nat)
    ensures
        ({
            let counts = token_counts(candidate_blocks(ranked, tags));
            let n = greedy_take(counts, budget) as int;
            &&& rendered(ranked, tags, budget) == concat(candidate_blocks(ranked, tags).take(n))
            &&& total(counts.take(n)) <= budget
        }),
{
    lemma_greedy_within_budget(token_counts(candidate_blocks(ranked, tags)), budget);
}

/// The rendered map is as long as the budget allows: it takes the blocks of
/// the ranked files in rank order, and leaves blocks out only when the next
/// one would push the token count over the budget.
pub proof fn lemma_render_greedy(ranked: Seq<Seq<char>>, tags: Seq<TagView>, budget: nat)
    ensures
        ({
            let blocks = candidate_blocks(ranked, tags);
            let counts = token_counts(blocks);
            let n = greedy_take(counts, budget) as int;
            &&& n <= blocks.len()
            &&& rendered(ranked, tags, budget) == concat(blocks.take(n))
            &&& (n < blocks.len() ==> total(counts.take(n)) + counts[n] > budget)
        }),
{
    lemma_greedy_stops_only_when_full(token_counts(candidate_blocks(ranked, tags)), budget);
}

/// The first position in strictly ascending lines whose line is not below `l`.
proof fn line_position(lines: Seq<(usize, Seq<char>)>, l: usize) -> (p: int)
    requires
        forall|i: int, j: int| 0 <= i < j < lines.len() ==> (#[trigger] lines[i]).0 < (#[trigger] lines[j]).0,
    ensures
        0 <= p <= lines.len(),
        forall|q: int| 0 <= q < p ==> (#[trigger] lines[q]).0 < l,
        p < lines.len() ==> lines[p].0 >= l,
    decreases lines.len(),
{
    if lines.len() == 0 {
        0
    } else {
        let prev = lines.drop_last();
        let p0 = line_position(prev, l);
        if p0 < prev.len() {
            assert(lines[p0] == prev[p0]);
            assert forall|q: int| 0 <= q < p0 implies (#[trigger] lines[q]).0 < l by {
                assert(lines[q] == prev[q]);
            }
            p0
        } else if lines.last().0 < l {
            assert forall|q: int| 0 <= q < lines.len() implies (#[trigger] lines[q]).0 < l by {
                if q < prev.len() {
                    assert(lines[q] == prev[q]);
                }
            }
            lines.len() as int
        } else {
            assert forall|q: int| 0 <= q < prev.len() implies (#[trigger] lines[q]).0 < l by {
                assert(lines[q] == prev[q]);
            }
            prev.len() as int
        }
    }
}

/// A line list for the first `n` tags exists.
proof fn lemma_def_lines_upto_exist(tags: Seq<TagView>, f: Seq<char>, n: int) -> (lines: Seq<(usize, Seq<char>)>)
    requires
        0 <= n <= tags.len(),
    ensures
        is_def_lines_upto(tags, f, lines, n),
    decreases n,
{
    if n == 0 {
        Seq::empty()
    } else {
        let k = n - 1;
        let lines = lemma_def_lines_upto_exist(tags, f, k);
        if !(tags[k].kind == TagKind::Def && tags[k].rel_fname == f) {
            lemma_other_keeps_lines(tags, f, lines, k);
            lines
        } else {
            let p = line_position(lines, tags[k].line);
            if p < lines.len() && lines[p].0 == tags[k].line {
                if chars_lt(tags[k].name, lines[p].1) {
                    lemma_replace_keeps_lines(tags, f, lines, k, p);
                    lines.update(p, (tags[k].line, tags[k].name))
                } else {
                    lemma_skip_keeps_lines(tags, f, lines, k, p);
                    lines
                }
            } else {
                lemma_insert_keeps_lines(tags, f, lines, k, p);
                lines.insert(p, (tags[k].line, tags[k].name))
            }
        }
    }
}

/// Every file of every tag sequence has its definition lines: `def_lines`
/// always meets `is_def_lines`.
pub proof fn lemma_def_lines_exist(tags: Seq<TagView>, f: Seq<char>)
    ensures
        is_def_lines(tags, f, def_lines(tags, f)),
{
    let lines = lemma_def_lines_upto_exist(tags, f, tags.len() as int);
    assert(is_def_lines(tags, f, lines));
}

/// A line list of one tag sequence is one of any sequence with the same tags.
proof fn lemma_def_lines_transfer(t1: Seq<TagView>, t2: Seq<TagView>, f: Seq<char>, lines: Seq<(usize, Seq<char>)>)
    requires
        forall|x: TagView| t1.contains(x) <==> t2.contains(x),
        is_def_lines(t1, f, lines),
    ensures
        is_def_lines(t2, f, lines),
{
    let n1 = t1.len() as int;
    let n2 = t2.len() as int;
    assert forall|i: int| 0 <= i < lines.len() implies defined_on(t2, f, n2, #[trigger] lines[i]) by {
        assert(defined_on(t1, f, n1, lines[i]));
        let k = witness_of(t1, f, n1, lines[i]);
        assert(t1.contains(t1[k]));
        let k2 = choose|k2: int| 0 <= k2 < t2.len() && t2[k2] == t1[k];
        reveal(defined_on);
        assert(t2[k2].kind == TagKind::Def);
    }
    assert forall|k2: int|
        0 <= k2 < n2 && (#[trigger] t2[k2]).kind == TagKind::Def && t2[k2].rel_fname == f implies covers(lines, t2[k2]) by {
        assert(t2.contains(t2[k2]));
        let k = choose|k: int| 0 <= k < t1.len() && t1[k] == t2[k2];
        assert(t1[k].kind == TagKind::Def);
        assert(covers(lines, t1[k]));
    }
}

/// Two tag sequences with the same tags give every file the same lines.
proof fn lemma_def_lines_same_tags(t1: Seq<TagView>, t2: Seq<TagView>, f: Seq<char>)
    requires
        forall|x: TagView| t1.contains(x) <==> t2.contains(x),
    ensures
        def_lines(t1, f) == def_lines(t2, f),
{
    lemma_def_lines_exist(t1, f);
    lemma_def_lines_exist(t2, f);
    lemma_def_lines_transfer(t1, t2, f, def_lines(t1, f));
    lemma_def_lines_unique(t2, f, def_lines(t1, f), def_lines(t2, f));
}

proof fn lemma_candidates_same_tags(ranked: Seq<Seq<char>>, t1: Seq<TagView>, t2: Seq<TagView>)
    requires
        forall|x: TagView| t1.contains(x) <==> t2.contains(x),
    ensures
        candidate_blocks(ranked, t1) == candidate_blocks(ranked, t2),
    decreases ranked.len(),
{
    if ranked.len() > 0 {
        lemma_candidates_same_tags(ranked.drop_last(), t1, t2);
        lemma_def_lines_same_tags(t1, t2, ranked.last());
    }
}

/// The rendered map does not depend on the order of the tags: any
/// permutation of them renders the same text.
pub proof fn lemma_render_tag_order(ranked: Seq<Seq<char>>, t1: Seq<TagView>, t2: Seq<TagView>, budget: nat)
    requires
        t1.to_multiset() == t2.to_multiset(),
    ensures
        rendered(ranked, t1, budget) == rendered(ranked, t2, budget),
{
    t1.to_multiset_ensures();
    t2.to_multiset_ensures();
    assert forall|x: TagView| t1.contains(x) <==> t2.contains(x) by {
        assert(t1.contains(x) <==> t1.to_multiset().count(x) > 0);
        assert(t2.contains(x) <==> t2.to_multiset().count(x) > 0);
    }
    lemma_candidates_same_tags(ranked, t1, t2);
}

/// A larger budget takes at least as many blocks.
proof fn lemma_greedy_monotone(counts: Seq<nat>, b1: nat, b2: nat)
    requires
        b1 <= b2,
    ensures
        greedy_take(counts, b1) <= greedy_take(counts, b2),
    decreases counts.len(),
{
    if counts.len() > 0 {
        let prev = counts.drop_last();
        lemma_greedy_monotone(prev, b1, b2);
        lemma_greedy_bounded(prev, b1);
        lemma_greedy_bounded(prev, b2);
    }
}

/// The blocks up to `m1` are a prefix of those up to `m2`.
proof fn lemma_concat_prefix(blocks: Seq<Seq<char>>, m1: int, m2: int)
    requires
        0 <= m1 <= m2 <= blocks.len(),
    ensures
        concat(blocks.take(m1)).is_prefix_of(concat(blocks.take(m2))),
    decreases m2 - m1,
{
    if m1 < m2 {
        lemma_concat_prefix(blocks, m1, m2 - 1);
        let a = concat(blocks.take(m1));
        let b = concat(blocks.take(m2 - 1));
        assert(blocks.take(m2).drop_last() =~= blocks.take(m2 - 1));
        let c = concat(blocks.take(m2));
        assert(c == b + blocks.take(m2).last());
        assert(a =~= c.subrange(0, a.len() as int)) by {
            assert(a =~= b.subrange(0, a.len() as int));
            assert forall|i: int| 0 <= i < a.len() implies c[i] == b[i] by {}
        }
    } else {
        let a = concat(blocks.take(m1));
        assert(a =~= a.subrange(0, a.len() as int));
    }
}

/// A larger budget only appends whole blocks: the map rendered with budget
/// `b1` is a prefix of the one rendered with any larger budget `b2`.
pub proof fn lemma_render_budget_monotone(ranked: Seq<Seq<char>>, tags: Seq<TagView>, b1: nat, b2: nat)
    requires
        b1 <= b2,
    ensures
        rendered(ranked, tags, b1).is_prefix_of(rendered(ranked, tags, b2)),
{
    let blocks = candidate_blocks(ranked, tags);
    let counts = token_counts(blocks);
    lemma_greedy_monotone(counts, b1, b2);
    lemma_greedy_bounded(counts, b2);
    lemma_concat_prefix(blocks, greedy_take(counts, b1) as int, greedy_take(counts, b2) as int);
}

} // verus!
