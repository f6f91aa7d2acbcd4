//! How rules are written, and where the managed block stands, said of lines and characters.
use vstd::prelude::*;

verus! {

use crate::models::RuleFacts;

// ---------------------------------------------------------------------------
// Writing
// ---------------------------------------------------------------------------
/// Rules are written one after the other.
pub proof fn rules_are_written_in_order(a: Seq<RuleFacts>, b: Seq<RuleFacts>)
    ensures
        crate::hosts::formatter::rules_text(a + b) == crate::hosts::formatter::rules_text(a)
            + crate::hosts::formatter::rules_text(b),
        crate::hosts::formatter::rules_text(Seq::empty()) == Seq::<char>::empty(),
    decreases b.len(),
{
    assert(crate::hosts::formatter::rules_text(Seq::empty()) =~= Seq::<char>::empty());
    lemma_all_lines_add(a, b);
    crate::hosts::formatter::lemma_lines_text_add(
        crate::hosts::formatter::all_lines(a),
        crate::hosts::formatter::all_lines(b),
    );
}

/// The lines of rules, one after the other.
proof fn lemma_all_lines_add(a: Seq<RuleFacts>, b: Seq<RuleFacts>)
    ensures
        crate::hosts::formatter::all_lines(a + b) == crate::hosts::formatter::all_lines(a)
            + crate::hosts::formatter::all_lines(b),
    decreases b.len(),
{
    if b.len() == 0 {
        assert(a + b =~= a);
        assert(crate::hosts::formatter::all_lines(a) + seq![]
            =~= crate::hosts::formatter::all_lines(a));
    } else {
        lemma_all_lines_add(a, b.drop_last());
        assert((a + b).drop_last() =~= a + b.drop_last());
        assert((a + b).last() == b.last());
        assert(crate::hosts::formatter::all_lines(a + b) =~= crate::hosts::formatter::all_lines(a)
            + crate::hosts::formatter::all_lines(b));
    }
}

/// The lines of one rule.
proof fn lemma_one_rule(r: RuleFacts)
    ensures
        crate::hosts::formatter::rules_text(seq![r]) == crate::hosts::formatter::lines_text(
            crate::hosts::formatter::rule_lines(r),
        ),
{
    let one = seq![r];
    assert(one.drop_last() =~= seq![]);
    assert(crate::hosts::formatter::all_lines(one.drop_last()) =~= seq![]);
    assert(one.last() == r);
    assert(crate::hosts::formatter::all_lines(one) =~= crate::hosts::formatter::rule_lines(r));
}

/// A rule is written as one line for each of its domains: the address, a space, the domain,
/// and behind ` # ` the comment, if it has one. It does not matter whether the rule is in
/// force, where it is from or which line it was read from.
pub proof fn every_domain_is_written(r: RuleFacts, ip: crate::net::IpAddr, d: Seq<char>)
    requires
        r.ip == Some(ip),
    ensures
        crate::hosts::formatter::rules_text(
            seq![RuleFacts { domains: r.domains.push(d), ..r }],
        ) == crate::hosts::formatter::rules_text(seq![r]) + crate::net::ip_text(ip) + seq![' '] + d
            + (match r.comment {
            Some(c) => seq![' ', '#', ' '] + c,
            None => seq![],
        }) + seq!['\n'],
        r.domains.len() == 0 ==> crate::hosts::formatter::rules_text(seq![r]) == Seq::<
            char,
        >::empty(),
{
    let m = RuleFacts { domains: r.domains.push(d), ..r };
    lemma_one_rule(r);
    lemma_one_rule(m);
    let a = crate::hosts::formatter::rule_lines(r);
    let b = crate::hosts::formatter::rule_lines(m);
    let l = crate::hosts::formatter::domain_line(ip, d, r.comment);
    assert(b.drop_last() =~= a);
    assert(b.last() == l);
    assert(crate::hosts::formatter::rules_text(seq![m]) =~= crate::hosts::formatter::rules_text(
        seq![r],
    ) + crate::net::ip_text(ip) + seq![' '] + d + (match r.comment {
        Some(c) => seq![' ', '#', ' '] + c,
        None => seq![],
    }) + seq!['\n']);
    if r.domains.len() == 0 {
        assert(a =~= seq![]);
        assert(crate::hosts::formatter::rules_text(seq![r]) =~= seq![]);
    }
}

/// A rule without an address is written as its comment, if it has one.
pub proof fn a_comment_is_written_as_it_is(r: RuleFacts)
    requires
        r.ip is None,
    ensures
        crate::hosts::formatter::rules_text(seq![r]) == match r.comment {
            Some(c) => c.push('\n'),
            None => seq![],
        },
{
    lemma_one_rule(r);
    match r.comment {
        Some(c) => {
            let a = seq![c];
            assert(a.drop_last() =~= seq![]);
            assert(crate::hosts::formatter::lines_text(a.drop_last()) =~= seq![]);
            assert(crate::hosts::formatter::lines_text(a) =~= c.push('\n'));
        },
        None => {
            assert(crate::hosts::formatter::lines_text(seq![]) =~= seq![]);
        },
    }
}

/// The block is its rules between two marks, each on a line of its own; without rules it is
/// nothing.
pub proof fn the_block_stands_between_two_marks(rules: Seq<RuleFacts>)
    ensures
        crate::hosts::formatter::block_text(Seq::empty()) == Seq::<char>::empty(),
        rules.len() > 0 ==> crate::hosts::formatter::block_text(rules)
            == "# ---- mHost start ----"@ + seq!['\n'] + crate::hosts::formatter::rules_text(rules)
            + "# ---- mHost end ----"@ + seq!['\n'],
{
    if rules.len() > 0 {
        assert(crate::hosts::formatter::block_text(rules) =~= "# ---- mHost start ----"@ + seq![
            '\n',
        ] + crate::hosts::formatter::rules_text(rules) + "# ---- mHost end ----"@ + seq!['\n']);
    }
}

// ---------------------------------------------------------------------------
// Finding
// ---------------------------------------------------------------------------
/// Where exactly one line is the first mark and exactly one behind it is the second, white
/// space around them aside, the block goes from the one to the other, and holds the lines
/// between.
pub proof fn the_block_is_between_its_marks(
    a: Seq<Seq<char>>,
    s: Seq<char>,
    b: Seq<Seq<char>>,
    e: Seq<char>,
    c: Seq<Seq<char>>,
)
    requires
        crate::text::trim(s) == "# ---- mHost start ----"@,
        crate::text::trim(e) == "# ---- mHost end ----"@,
        forall|k: int|
            0 <= k < a.len() ==> crate::text::trim(#[trigger] a[k]) != "# ---- mHost start ----"@
                && crate::text::trim(a[k]) != "# ---- mHost end ----"@,
        forall|k: int|
            0 <= k < b.len() ==> crate::text::trim(#[trigger] b[k]) != "# ---- mHost start ----"@
                && crate::text::trim(b[k]) != "# ---- mHost end ----"@,
        forall|k: int|
            0 <= k < c.len() ==> crate::text::trim(#[trigger] c[k]) != "# ---- mHost start ----"@
                && crate::text::trim(c[k]) != "# ---- mHost end ----"@,
    ensures
        crate::hosts::block::managed_range(a + seq![s] + b + seq![e] + c) == Some(
            (a.len() as int, (a.len() + 1 + b.len()) as int),
        ),
        crate::hosts::block::managed_lines(a + seq![s] + b + seq![e] + c) == Some(b),
{
    let all = a + seq![s] + b + seq![e] + c;
    let sm = crate::hosts::formatter::start_marker();
    let em = crate::hosts::formatter::end_marker();
    let i = a.len() as int;
    let j = (a.len() + 1 + b.len()) as int;
    crate::hosts::block::lemma_markers_differ();
    assert(all[i] == s);
    assert(all[j] == e);
    assert forall|k: int| 0 <= k < all.len() && k != i && k != j implies crate::text::trim(
        #[trigger] all[k],
    ) != sm && crate::text::trim(all[k]) != em by {
        if k < i {
            assert(all[k] == a[k]);
        } else if k < j {
            assert(all[k] == b[k - i - 1]);
        } else {
            assert(all[k] == c[k - j - 1]);
        }
    }
    assert(crate::hosts::block::is_mark(all, i, sm));
    assert forall|k: int| crate::hosts::block::is_mark(all, k, sm) implies i == k by {
        assert(crate::text::trim(all[k]) == sm);
    }
    assert(crate::hosts::block::is_mark(all, j, em));
    assert forall|k: int| crate::hosts::block::is_mark(all, k, em) implies j == k by {
        assert(crate::text::trim(all[k]) == em);
    }
    crate::hosts::block::lemma_only_mark(all, sm, i);
    crate::hosts::block::lemma_only_mark(all, em, j);
    if b.len() == 0 {
        assert(b =~= seq![]);
    } else {
        assert(all.subrange(i + 1, j) =~= b);
    }
}

/// Without the first mark, or without the second, with one of them twice, or with the second
/// before the first, there is no block.
pub proof fn marks_in_disorder_are_no_block(lines: Seq<Seq<char>>)
    requires
        (forall|i: int|
            0 <= i < lines.len() ==> crate::text::trim(#[trigger] lines[i])
                != "# ---- mHost start ----"@) || (forall|i: int|
            0 <= i < lines.len() ==> crate::text::trim(#[trigger] lines[i])
                != "# ---- mHost end ----"@) || (exists|i: int, j: int|
            0 <= i < j < lines.len() && crate::text::trim(#[trigger] lines[i])
                == "# ---- mHost start ----"@ && crate::text::trim(#[trigger] lines[j])
                == "# ---- mHost start ----"@) || (exists|i: int, j: int|
            0 <= i < j < lines.len() && crate::text::trim(#[trigger] lines[i])
                == "# ---- mHost end ----"@ && crate::text::trim(#[trigger] lines[j])
                == "# ---- mHost end ----"@) || (exists|i: int, j: int|
            0 <= i < j < lines.len() && crate::text::trim(#[trigger] lines[i])
                == "# ---- mHost end ----"@ && crate::text::trim(#[trigger] lines[j])
                == "# ---- mHost start ----"@),
    ensures
        crate::hosts::block::managed_range(lines) is None,
        crate::hosts::block::managed_lines(lines) is None,
{
    let sm = crate::hosts::formatter::start_marker();
    let em = crate::hosts::formatter::end_marker();
    if crate::hosts::block::managed_range(lines) is Some {
        let s = crate::hosts::block::only_mark(lines, sm)->0;
        let e = crate::hosts::block::only_mark(lines, em)->0;
        assert(crate::hosts::block::is_mark(lines, s, sm));
        assert(crate::hosts::block::is_mark(lines, e, em));
        assert forall|k: int| 0 <= k < lines.len() && crate::text::trim(#[trigger] lines[k])
            == sm implies k == s by {
            assert(crate::hosts::block::is_mark(lines, k, sm));
        }
        assert forall|k: int| 0 <= k < lines.len() && crate::text::trim(#[trigger] lines[k])
            == em implies k == e by {
            assert(crate::hosts::block::is_mark(lines, k, em));
        }
        assert(crate::text::trim(lines[s]) == sm);
        assert(crate::text::trim(lines[e]) == em);
    }
}

/// The block of a text is that of its lines: what it holds is the lines between the marks,
/// with line feeds between them.
pub proof fn the_content_is_the_lines_between(text: Seq<char>)
    ensures
        match crate::hosts::block::managed_lines(crate::text::lines(text)) {
            Some(b) => crate::hosts::block::managed_content(text) == Some(
                crate::text::join(b, seq!['\n']),
            ),
            None => crate::hosts::block::managed_content(text) is None,
        },
{
}

/// The characters of the block are those from the start of the first mark's line to the end
/// of the second mark's line: in a text put together of what stands before it, the block and
/// what stands behind it, they are those of the block.
pub proof fn the_span_is_that_of_the_block(p: Seq<char>, block: Seq<char>, q: Seq<char>)
    requires
        p.len() == 0 || p.last() == '\n',
        block.len() > 0,
        block.last() == '\n',
        crate::text::lines(block).len() >= 2,
        crate::text::trim(crate::text::lines(block)[0]) == "# ---- mHost start ----"@,
        crate::text::trim(crate::text::lines(block).last()) == "# ---- mHost end ----"@,
        forall|k: int|
            0 <= k < crate::text::lines(p).len() ==> crate::text::trim(#[trigger] crate::text::lines(p)[k]) != "# ---- mHost start ----"@
                && crate::text::trim(crate::text::lines(p)[k]) != "# ---- mHost end ----"@,
        forall|k: int|
            0 <= k < crate::text::lines(q).len() ==> crate::text::trim(#[trigger] crate::text::lines(q)[k]) != "# ---- mHost start ----"@
                && crate::text::trim(crate::text::lines(q)[k]) != "# ---- mHost end ----"@,
        forall|k: int|
            1 <= k < crate::text::lines(block).len() - 1 ==> crate::text::trim(#[trigger] crate::text::lines(block)[k])
                != "# ---- mHost start ----"@ && crate::text::trim(crate::text::lines(block)[k])
                != "# ---- mHost end ----"@,
    ensures
        crate::hosts::block::managed_span(p + block + q) == Some(
            (p.len() as int, (p.len() + block.len()) as int),
        ),
{
    let text = p + block + q;
    let a = crate::text::lines(p);
    let m = crate::text::lines(block);
    let c = crate::text::lines(q);
    let b = m.subrange(1, m.len() - 1);
    crate::hosts::block::lemma_lines_add(block, q);
    crate::hosts::block::lemma_lines_add(p, block + q);
    assert(text =~= p + (block + q));
    assert(a + (m + c) =~= a + seq![m[0]] + b + seq![m.last()] + c);
    assert forall|k: int| 0 <= k < b.len() implies crate::text::trim(#[trigger] b[k])
        != "# ---- mHost start ----"@ && crate::text::trim(b[k]) != "# ---- mHost end ----"@ by {
        assert(b[k] == m[k + 1]);
    }
    the_block_is_between_its_marks(a, m[0], b, m.last(), c);
    crate::apply::laws::lemma_offset_add(p, block + q, 0);
    crate::apply::laws::lemma_offset_add(p, block + q, m.len() as int);
    crate::apply::laws::lemma_offset_add(block, q, 0);
    assert(crate::hosts::block::line_offset(q, 0) == 0);
    assert(crate::hosts::block::line_offset(block + q, 0) == 0);
}

} // verus!
