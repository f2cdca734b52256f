//! Properties of the library as a whole, proved over the models its
//! functions are specified by.
use vstd::prelude::*;
use crate::display::{
    common_prefix, common_suffix, lemma_common_prefix_from, group_rows, indices, repo_then_name,
    byte_len, max_width, upgrade_spec, spec_display_rows, spec_highlight_diff, spec_repo_display, spec_shorten_repo,
    DisplayRowView, GroupBy, RepoDisplayView,
};
use crate::parser::{
    by_name, entry_if, expected_pairs, feed_from, initial_view, saw_no_table, spec_finish, pairs_map, section_state, spec_feed,
    spec_on_section, spec_parse_update_lines, ParserView, StateView, UpdateView,
};
use crate::progress::{spec_record, spec_title_size, DiskChangeView, SizeInfoView, StderrLineView, TitleSizeView};
use crate::sort::{insert_pos, insert_sorted, lemma_insert_sorted, lex_lt, sort_by};
use crate::table::{group_of, header_text, spec_parse_package_row, SummaryGroup};
use crate::table::{spec_normalize_version, spec_parse_summary_count};
use crate::size::{SizeView, is_float_literal, spec_display_unit, spec_parse_dnf_size, unit_named, SizeUnit};
use crate::progress::{second_piece, spec_parse_disk_line, spec_parse_download_line, trim_end_dots};
use crate::text::{starts_with, words};
use vstd::arithmetic::power2::{lemma2_to64, pow2};
use crate::text::{lemma_line_end, line_end, lines, lines_from};

verus! {

/// `a < a` never holds in `String`'s order.
pub proof fn lemma_lex_lt_irreflexive(a: Seq<char>)
    ensures
        !lex_lt(a, a),
    decreases a.len(),
{
    if a.len() > 0 {
        lemma_lex_lt_irreflexive(a.drop_first());
    }
}

/// `String`'s order is transitive.
pub proof fn lemma_lex_lt_transitive(a: Seq<char>, b: Seq<char>, c: Seq<char>)
    requires
        lex_lt(a, b),
        lex_lt(b, c),
    ensures
        lex_lt(a, c),
    decreases a.len(),
{
    if a.len() > 0 && b.len() > 0 && c.len() > 0 {
        if (a[0] as u32) == (b[0] as u32) && (b[0] as u32) == (c[0] as u32) {
            lemma_lex_lt_transitive(a.drop_first(), b.drop_first(), c.drop_first());
        }
    }
}

/// No element is less than an element after it.
pub open spec fn is_sorted_by<T>(s: Seq<T>, less: spec_fn(T, T) -> bool) -> bool {
    forall|i: int, j: int| 0 <= i < j < s.len() ==> !less(#[trigger] s[j], #[trigger] s[i])
}

/// `less` is a strict order: never `x < x`, and transitive.
pub open spec fn is_strict_order<T>(less: spec_fn(T, T) -> bool) -> bool {
    &&& forall|x: T| !#[trigger] less(x, x)
    &&& forall|x: T, y: T, z: T| #[trigger] less(x, y) && #[trigger] less(y, z) ==> less(x, z)
}

proof fn lemma_insert_sorted_sorted<T>(t: Seq<T>, x: T, less: spec_fn(T, T) -> bool)
    requires
        is_strict_order(less),
        is_sorted_by(t, less),
    ensures
        is_sorted_by(insert_sorted(t, x, less), less),
        insert_sorted(t, x, less).to_multiset() == t.to_multiset().insert(x),
{
    lemma_insert_sorted(t, x, less);
    let p = insert_pos(t, x, less);
    let r = insert_sorted(t, x, less);
    assert(r == t.insert(p, x));
    vstd::seq_lib::to_multiset_insert(t, p, x);
    assert forall|i: int, j: int| 0 <= i < j < r.len() implies !less(#[trigger] r[j], #[trigger] r[i]) by {
        if j < p {
            assert(r[i] == t[i] && r[j] == t[j]);
        } else if j == p {
            assert(r[j] == x && r[i] == t[i]);
        } else if i == p {
            assert(r[i] == x && r[j] == t[j - 1]);
            if less(t[j - 1], x) {
                assert(less(x, t[p]));
                if j - 1 == p {
                    assert(less(t[p], t[p]));
                } else {
                    assert(less(t[j - 1], t[p]));
                }
            }
        } else if i < p {
            assert(r[i] == t[i] && r[j] == t[j - 1]);
        } else {
            assert(r[i] == t[i - 1] && r[j] == t[j - 1]);
        }
    }
}

/// Sorting with a strict order gives a sorted sequence with the same
/// elements.
pub proof fn lemma_sort_by<T>(s: Seq<T>, less: spec_fn(T, T) -> bool)
    requires
        is_strict_order(less),
    ensures
        is_sorted_by(sort_by(s, less), less),
        sort_by(s, less).to_multiset() == s.to_multiset(),
    decreases s.len(),
{
    if s.len() > 0 {
        lemma_sort_by(s.drop_last(), less);
        lemma_insert_sorted_sorted(sort_by(s.drop_last(), less), s.last(), less);
        vstd::seq_lib::to_multiset_build(s.drop_last(), s.last());
        assert(s.drop_last().push(s.last()) == s);
        assert(sort_by(s, less) == insert_sorted(sort_by(s.drop_last(), less), s.last(), less));
    } else {
        assert(s =~= Seq::<T>::empty());
        assert(sort_by(s, less) =~= Seq::<T>::empty());
    }
}

/// Ordering updates by name is a strict order.
pub proof fn lemma_by_name_strict()
    ensures
        is_strict_order(by_name()),
{
    assert forall|x: UpdateView| !#[trigger] (by_name())(x, x) by {
        lemma_lex_lt_irreflexive(x.name);
    }
    assert forall|x: UpdateView, y: UpdateView, z: UpdateView| #[trigger] (by_name())(x, y)
        && #[trigger] (by_name())(y, z) implies (by_name())(x, z) by {
        lemma_lex_lt_transitive(x.name, y.name, z.name);
    }
}

/// `pred` picks out elements that `less` cannot tell apart: none of them
/// is less than another, and each is less than whatever one of them is.
spec fn tied<T>(less: spec_fn(T, T) -> bool, pred: spec_fn(T) -> bool) -> bool {
    &&& forall|x: T, y: T| #![trigger less(x, y), pred(x), pred(y)] pred(x) && pred(y) ==> !less(x, y)
    &&& forall|x: T, y: T, z: T| #![trigger less(x, z), pred(y)] pred(x) && pred(y) && less(x, z)
        ==> less(y, z)
}

proof fn lemma_insert_sorted_filter<T>(
    t: Seq<T>,
    x: T,
    less: spec_fn(T, T) -> bool,
    pred: spec_fn(T) -> bool,
)
    requires
        is_sorted_by(t, less),
        tied(less, pred),
    ensures
        insert_sorted(t, x, less).filter(pred) == (if pred(x) {
            t.filter(pred).push(x)
        } else {
            t.filter(pred)
        }),
{
    lemma_insert_sorted(t, x, less);
    let p = insert_pos(t, x, less);
    let a = t.take(p);
    let b = t.skip(p);
    assert(t == a + b);
    Seq::filter_distributes_over_add(a, b, pred);
    Seq::filter_distributes_over_add(a + seq![x], b, pred);
    Seq::filter_distributes_over_add(a, seq![x], pred);
    a.lemma_filter_push(x, pred);
    assert(a + seq![x] == a.push(x));
    Seq::<T>::empty().lemma_filter_push(x, pred);
    if pred(x) {
        assert forall|j: int| 0 <= j < b.len() implies !pred(#[trigger] b[j]) by {
            if pred(b[j]) {
                assert(b[j] == t[p + j]);
                assert(less(x, t[p]));
                assert(less(t[p + j], t[p]));
                if j > 0 {
                    assert(!less(t[p + j], t[p]));
                }
            }
        }
        b.lemma_all_neg_filter_empty(pred);
        assert(b.filter(pred) =~= Seq::<T>::empty());
        assert(a.filter(pred) + b.filter(pred) == a.filter(pred));
        assert(a.filter(pred).push(x) + b.filter(pred) == a.filter(pred).push(x));
    }
}

/// Sorting keeps elements that `less` cannot tell apart in the order they
/// came in.
proof fn lemma_sort_by_stable<T>(s: Seq<T>, less: spec_fn(T, T) -> bool, pred: spec_fn(T) -> bool)
    requires
        is_strict_order(less),
        tied(less, pred),
    ensures
        sort_by(s, less).filter(pred) == s.filter(pred),
    decreases s.len(),
{
    if s.len() > 0 {
        lemma_sort_by_stable(s.drop_last(), less, pred);
        lemma_sort_by(s.drop_last(), less);
        lemma_insert_sorted_filter(sort_by(s.drop_last(), less), s.last(), less, pred);
        assert(s == s.drop_last().push(s.last()));
        s.drop_last().lemma_filter_push(s.last(), pred);
    } else {
        assert(sort_by(s, less) =~= s);
    }
}

/// The updates of one package name.
pub open spec fn named(n: Seq<char>) -> spec_fn(UpdateView) -> bool {
    |u: UpdateView| u.name == n
}

/// Sorting by name keeps updates of the same name in the order they came
/// in (the sort is stable).
pub proof fn lemma_sort_by_name_stable(s: Seq<UpdateView>, n: Seq<char>)
    ensures
        sort_by(s, by_name()).filter(named(n)) == s.filter(named(n)),
{
    lemma_by_name_strict();
    assert forall|x: UpdateView, y: UpdateView| #![trigger (by_name())(x, y), (named(n))(x), (named(n))(y)]
        (named(n))(x) && (named(n))(y) implies !(by_name())(x, y) by {
        lemma_lex_lt_irreflexive(x.name);
    }
    lemma_sort_by_stable(s, by_name(), named(n));
}

/// `finish` accepts a parse only when nothing at all was counted or read
/// (no table), or when the output reached the summary and the summary
/// lists exactly what the sections counted, `replacing` lines under
/// `Replacing`.
pub proof fn lemma_finish_checks_summary(p: ParserView)
    requires
        spec_finish(p) is Ok,
    ensures
        saw_no_table(p) || ((p.state is Summary || p.state is End) && pairs_map(p.summary)
            == pairs_map(expected_pairs(p))),
{
}

/// What `finish` gives, when it succeeds, is the parser's updates sorted
/// by name, each once, updates of one name in the order the table listed
/// them.
pub proof fn lemma_finish_sorted_stable(p: ParserView, n: Seq<char>)
    requires
        spec_finish(p) is Ok,
    ensures
        is_sorted_by(spec_finish(p)->Ok_0, by_name()),
        spec_finish(p)->Ok_0.to_multiset() == p.updates.to_multiset(),
        spec_finish(p)->Ok_0.filter(named(n)) == p.updates.filter(named(n)),
{
    lemma_by_name_strict();
    lemma_sort_by(p.updates, by_name());
    lemma_sort_by_name_stable(p.updates, n);
    if p.updates.len() == 0 {
        assert(p.updates =~= seq![]);
        assert(sort_by(p.updates, by_name()) =~= seq![]);
    }
}

/// The updates of one name that `parse_update_lines` gives are those of
/// the table, in the order the table lists them.
pub proof fn lemma_parsed_updates_keep_table_order(stdout: Seq<char>, n: Seq<char>)
    requires
        spec_parse_update_lines(stdout) is Ok,
    ensures
        feed_from(initial_view(), lines(stdout), 0) matches Ok(p) && spec_parse_update_lines(
            stdout,
        )->Ok_0.filter(named(n)) == p.updates.filter(named(n)),
{
    match feed_from(initial_view(), lines(stdout), 0) {
        Ok(p) => {
            lemma_finish_sorted_stable(p, n);
        },
        Err(_) => {},
    }
}

/// The updates that `parse_update_lines` gives are sorted by name, and
/// they are exactly the upgrades the table lists, each once.
pub proof fn lemma_updates_sorted_by_name(stdout: Seq<char>)
    requires
        spec_parse_update_lines(stdout) is Ok,
    ensures
        is_sorted_by(spec_parse_update_lines(stdout)->Ok_0, by_name()),
        feed_from(initial_view(), lines(stdout), 0) matches Ok(p) && spec_parse_update_lines(
            stdout,
        )->Ok_0.to_multiset() == p.updates.to_multiset(),
{
    lemma_by_name_strict();
    match feed_from(initial_view(), lines(stdout), 0) {
        Ok(p) => {
            lemma_sort_by(p.updates, by_name());
            if p.updates.len() == 0 {
                assert(p.updates =~= seq![]);
                assert(sort_by(p.updates, by_name()) =~= seq![]);
            }
        },
        Err(_) => {},
    }
}

/// What holds of the parser after every line it accepted: a section's
/// package lines are updates exactly in `Upgrading:`; every update is
/// counted in the `Upgrading` bucket; every update but one awaiting its
/// sub-line has had its `replacing` line; and the package a `replacing`
/// sub-line is awaited for is the last update.
pub open spec fn parser_invariant(p: ParserView) -> bool {
    &&& (p.state matches StateView::Section { group, upgrading } ==> (upgrading <==> group
        == SummaryGroup::Upgrading))
    &&& p.updates.len() == p.counts.upgrading
    &&& p.replacing + (if p.state is Replacing {
        1int
    } else {
        0int
    }) == p.updates.len()
    &&& (p.state matches StateView::Replacing { name } ==> p.updates.len() > 0
        && p.updates.last().name == name)
}

/// Every line the parser accepts keeps its invariant.
pub proof fn lemma_feed_keeps_invariant(p: ParserView, line: Seq<char>)
    requires
        parser_invariant(p),
        spec_feed(p, line).1 is None,
    ensures
        parser_invariant(spec_feed(p, line).0),
{
    match p.state {
        StateView::Section { group, upgrading } => {
            let (q, r) = spec_on_section(p, line, group, upgrading);
            if line.len() != 0 && header_text(line) is Some {
                let name = header_text(line)->Some_0;
                assert(r == section_state(name));
                lemma_upgrading_section(name);
            } else if line.len() != 0 && spec_parse_package_row(line) is Ok {
                assert(q.counts == p.counts.bump(group));
            }
        },
        StateView::ExpectSection => {
            if header_text(line) is Some {
                lemma_upgrading_section(header_text(line)->Some_0);
            }
        },
        _ => {},
    }
}

/// Only the `Upgrading` section counts in the `Upgrading` bucket.
proof fn lemma_upgrading_section(name: Seq<char>)
    ensures
        crate::table::group_of(name) == Some(SummaryGroup::Upgrading) <==> name == "Upgrading"@,
{
    reveal_strlit("Upgrading");
    reveal_strlit("Installing");
    reveal_strlit("Installing dependencies");
    reveal_strlit("Installing weak dependencies");
    assert("Upgrading"@.len() == 9);
    assert("Installing"@.len() == 10);
}

proof fn lemma_feed_from_keeps_invariant(p: ParserView, ls: Seq<Seq<char>>, i: int)
    requires
        parser_invariant(p),
    ensures
        feed_from(p, ls, i) matches Ok(q) ==> parser_invariant(q),
    decreases ls.len() - i,
{
    if 0 <= i < ls.len() {
        let (q, e) = spec_feed(p, ls[i]);
        if e is None {
            lemma_feed_keeps_invariant(p, ls[i]);
            lemma_feed_from_keeps_invariant(q, ls, i + 1);
        }
    }
}

/// A new parser fed any lines, all of them accepted, holds its invariant.
pub proof fn lemma_fed_parser_invariant(ls: Seq<Seq<char>>)
    ensures
        feed_from(initial_view(), ls, 0) matches Ok(q) ==> parser_invariant(q),
{
    lemma_feed_from_keeps_invariant(initial_view(), ls, 0);
}

/// Once the table is over, nothing a line does touches the upgrades, the
/// package counts or the `replacing` count, whether it is accepted or
/// not: only the state and the summary lines can change.
pub proof fn lemma_summary_phase_keeps_table(p: ParserView, line: Seq<char>)
    requires
        p.state is SummaryHeader || p.state is Summary || p.state is End,
    ensures
        spec_feed(p, line).0.updates == p.updates,
        spec_feed(p, line).0.counts == p.counts,
        spec_feed(p, line).0.replacing == p.replacing,
{
}

/// When `parse_update_lines` finds upgrades, the Transaction Summary it
/// read lists exactly that many under `Upgrading` and under `Replacing`.
pub proof fn lemma_upgrades_match_summary(stdout: Seq<char>)
    requires
        spec_parse_update_lines(stdout) is Ok,
        spec_parse_update_lines(stdout)->Ok_0.len() > 0,
    ensures
        feed_from(initial_view(), lines(stdout), 0) matches Ok(p) && pairs_map(p.summary).contains_key(
            "Upgrading"@,
        ) && pairs_map(p.summary)["Upgrading"@] == spec_parse_update_lines(stdout)->Ok_0.len()
            && pairs_map(p.summary).contains_key("Replacing"@) && pairs_map(p.summary)["Replacing"@]
            == spec_parse_update_lines(stdout)->Ok_0.len(),
{
    lemma_fed_parser_invariant(lines(stdout));
    reveal_strlit("Downgrading");
    reveal_strlit("Installing");
    reveal_strlit("Reinstalling");
    reveal_strlit("Removing");
    reveal_strlit("Replacing");
    reveal_strlit("Upgrading");
    match feed_from(initial_view(), lines(stdout), 0) {
        Ok(p) => {
            let us = spec_parse_update_lines(stdout)->Ok_0;
            lemma_by_name_strict();
            lemma_sort_by(p.updates, by_name());
            vstd::seq_lib::to_multiset_len(us);
            vstd::seq_lib::to_multiset_len(p.updates);
            assert(p.updates.len() == us.len());
            let e = expected_pairs(p);
            let n = us.len();
            assert(pairs_map(p.summary) == pairs_map(e));
            assert(p.counts.upgrading == n && p.replacing == n);
            // The entries for `Replacing` and `Upgrading` are the last two.
            let tail = seq![("Replacing"@, n), ("Upgrading"@, n)];
            let head = e.subrange(0, e.len() - 2);
            assert(e == head + tail);
            assert(e.last() == ("Upgrading"@, n));
            assert(e.drop_last() == head.push(("Replacing"@, n)));
            assert(e.drop_last().last() == ("Replacing"@, n));
            assert(e.drop_last().drop_last() == head);
            assert(pairs_map(e.drop_last()) == pairs_map(head).insert("Replacing"@, n));
            assert(pairs_map(e) == pairs_map(head).insert("Replacing"@, n).insert("Upgrading"@, n));
            assert("Replacing"@[0] == 'R' && "Upgrading"@[0] == 'U');
            assert("Replacing"@ != "Upgrading"@);
        },
        Err(_) => {},
    }
}

/// An output whose lines are all blank has nothing to upgrade.
pub proof fn lemma_blank_output_is_no_updates(stdout: Seq<char>)
    requires
        forall|i: int| 0 <= i < lines(stdout).len() ==> #[trigger] lines(stdout)[i].len() == 0,
    ensures
        spec_parse_update_lines(stdout) == Ok::<Seq<UpdateView>, crate::parser::ParseErrorView>(
            seq![],
        ),
{
    lemma_blank_lines_keep_header(lines(stdout), 0);
}

proof fn lemma_blank_lines_keep_header(ls: Seq<Seq<char>>, i: int)
    requires
        0 <= i <= ls.len(),
        forall|k: int| 0 <= k < ls.len() ==> #[trigger] ls[k].len() == 0,
    ensures
        feed_from(initial_view(), ls, i) == Ok::<ParserView, (int, crate::error::LineErrorView)>(
            initial_view(),
        ),
    decreases ls.len() - i,
{
    if i < ls.len() {
        assert(spec_feed(initial_view(), ls[i]).0 == initial_view());
        lemma_blank_lines_keep_header(ls, i + 1);
    }
}

/// Putting the highlighted pieces back together gives both versions, and
/// only what changed is highlighted: when both changed parts are non-empty
/// they differ in their first and in their last character.
pub proof fn lemma_highlight_diff_reassembles(old: Seq<char>, new: Seq<char>)
    ensures
        ({
            let d = spec_highlight_diff(old, new);
            &&& d.prefix + d.old_mid + d.suffix == old
            &&& d.prefix + d.new_mid + d.suffix == new
            &&& (d.old_mid.len() > 0 && d.new_mid.len() > 0) ==> d.old_mid[0] != d.new_mid[0]
                && d.old_mid.last() != d.new_mid.last()
        }),
{
    let p = common_prefix(old, new);
    lemma_common_prefix_from(old, new, 0);
    let o = old.skip(p);
    let n = new.skip(p);
    let q = common_suffix(o, n);
    lemma_common_prefix_from(o.reverse(), n.reverse(), 0);
    assert(old.take(p) == new.take(p));
    let d = spec_highlight_diff(old, new);
    assert(o.skip(o.len() - q) == n.skip(n.len() - q)) by {
        assert forall|k: int| 0 <= k < q implies #[trigger] o.skip(o.len() - q)[k] == n.skip(n.len() - q)[k] by {
            let r = q - 1 - k;
            assert(o.reverse()[r] == n.reverse()[r]);
        }
    }
    assert(d.prefix + d.old_mid + d.suffix =~= old);
    assert(d.prefix + d.new_mid + d.suffix =~= new);
    if d.old_mid.len() > 0 && d.new_mid.len() > 0 {
        assert(d.old_mid[0] == old[p] && d.new_mid[0] == new[p]);
        assert(d.old_mid.last() == o.reverse()[q] && d.new_mid.last() == n.reverse()[q]);
    }
}

/// A line ends at the same place whether or not a `'\n'` follows the text.
proof fn lemma_line_end_push(s: Seq<char>, i: int)
    requires
        0 <= i <= s.len(),
    ensures
        line_end(s.push('\n'), i) == line_end(s, i),
    decreases s.len() - i,
{
    if i < s.len() && s[i] != '\n' {
        assert(s.push('\n')[i] == s[i]);
        lemma_line_end_push(s, i + 1);
    } else if i < s.len() {
        assert(s.push('\n')[i] == s[i]);
    }
}

proof fn lemma_lines_from_push(s: Seq<char>, i: int)
    requires
        0 <= i < s.len(),
        s.last() != '\n',
        s.last() != '\r',
    ensures
        lines_from(s.push('\n'), i) == lines_from(s, i),
    decreases s.len() - i,
{
    let t = s.push('\n');
    lemma_line_end_push(s, i);
    lemma_line_end(s, i);
    let e = line_end(s, i);
    assert(t.subrange(i, e) == s.subrange(i, e));
    if e < s.len() {
        assert(e != s.len() - 1);
        lemma_lines_from_push(s, e + 1);
    } else {
        assert(t[e] == '\n');
        assert(s.subrange(i, e).last() == s.last());
        assert(lines_from(t, e + 1) =~= seq![]);
    }
}

/// A final line ending changes nothing: output that ends in a line
/// without `'\n'` (and without a dangling `'\r'`) parses exactly as the
/// same output with a `'\n'` after it.
pub proof fn lemma_final_newline_changes_nothing(stdout: Seq<char>)
    requires
        stdout.len() > 0,
        stdout.last() != '\n',
        stdout.last() != '\r',
    ensures
        lines(stdout.push('\n')) == lines(stdout),
        spec_parse_update_lines(stdout.push('\n')) == spec_parse_update_lines(stdout),
{
    lemma_lines_from_push(stdout, 0);
}

/// The indices of the updates that the table rows show, in order.
pub open spec fn shown_packages(rows: Seq<DisplayRowView>) -> Seq<nat>
    decreases rows.len(),
{
    if rows.len() == 0 {
        seq![]
    } else {
        (match rows[0] {
            DisplayRowView::Package { index } => seq![index],
            _ => seq![],
        }) + shown_packages(rows.drop_first())
    }
}

proof fn lemma_shown_packages_concat(a: Seq<DisplayRowView>, b: Seq<DisplayRowView>)
    ensures
        shown_packages(a + b) == shown_packages(a) + shown_packages(b),
    decreases a.len(),
{
    if a.len() == 0 {
        assert(a + b == b);
    } else {
        lemma_shown_packages_concat(a.drop_first(), b);
        assert((a + b).drop_first() == a.drop_first() + b);
    }
}

proof fn lemma_group_rows_show_order(us: Seq<UpdateView>, order: Seq<nat>, k: int, current: Option<Seq<char>>)
    requires
        0 <= k <= order.len(),
    ensures
        shown_packages(group_rows(us, order, k, current)) == order.skip(k),
    decreases order.len() - k,
{
    if k < order.len() {
        let u = us[order[k] as int];
        let head = if current == Some(u.new_repo) {
            seq![]
        } else {
            (if current is Some {
                seq![DisplayRowView::Blank]
            } else {
                seq![]
            }) + seq![DisplayRowView::RepoHeader { repo: spec_shorten_repo(u.new_repo) }]
        };
        let rest = group_rows(us, order, k + 1, Some(u.new_repo));
        lemma_group_rows_show_order(us, order, k + 1, Some(u.new_repo));
        lemma_shown_packages_concat(head, seq![DisplayRowView::Package { index: order[k] }]);
        lemma_shown_packages_concat(head + seq![DisplayRowView::Package { index: order[k] }], rest);
        assert(shown_packages(head) =~= seq![]) by {
            let hdr = seq![DisplayRowView::RepoHeader { repo: spec_shorten_repo(u.new_repo) }];
            let blank = seq![DisplayRowView::Blank];
            assert(shown_packages(Seq::<DisplayRowView>::empty()) =~= seq![]);
            assert(hdr.drop_first() =~= Seq::<DisplayRowView>::empty());
            assert(blank.drop_first() =~= Seq::<DisplayRowView>::empty());
            assert(hdr[0] is RepoHeader && blank[0] is Blank);
            assert(shown_packages(hdr) =~= seq![]);
            assert(shown_packages(blank) =~= seq![]);
            if current != Some(u.new_repo) {
                if current is Some {
                    assert(head == blank + hdr);
                    lemma_shown_packages_concat(blank, hdr);
                } else {
                    assert(head =~= hdr);
                }
            }
        }
        assert(seq![DisplayRowView::Package { index: order[k] }].drop_first()
            =~= Seq::<DisplayRowView>::empty());
        assert(shown_packages(Seq::<DisplayRowView>::empty()) =~= seq![]);
        assert(shown_packages(seq![DisplayRowView::Package { index: order[k] }]) =~= seq![order[k]]);
        assert(order.skip(k) =~= seq![order[k]] + order.skip(k + 1));
    } else {
        assert(order.skip(k) =~= seq![]);
    }
}

/// Ordering rows by repository, then name, is a strict order.
proof fn lemma_repo_then_name_strict(us: Seq<UpdateView>)
    ensures
        is_strict_order(repo_then_name(us)),
{
    let less = repo_then_name(us);
    assert forall|x: nat| !#[trigger] less(x, x) by {
        lemma_lex_lt_irreflexive(us[x as int].new_repo);
        lemma_lex_lt_irreflexive(us[x as int].name);
    }
    assert forall|x: nat, y: nat, z: nat| #[trigger] less(x, y) && #[trigger] less(y, z) implies less(x, z) by {
        let (a, b, c) = (us[x as int], us[y as int], us[z as int]);
        if lex_lt(a.new_repo, b.new_repo) && lex_lt(b.new_repo, c.new_repo) {
            lemma_lex_lt_transitive(a.new_repo, b.new_repo, c.new_repo);
        }
        if a.new_repo == b.new_repo && b.new_repo == c.new_repo {
            lemma_lex_lt_irreflexive(a.new_repo);
            lemma_lex_lt_transitive(a.name, b.name, c.name);
        }
    }
}

/// Whatever the grouping, the table shows every update exactly once.
pub proof fn lemma_every_update_shown_once(us: Seq<UpdateView>, group: GroupBy)
    ensures
        shown_packages(spec_display_rows(us, group)).to_multiset() == indices(us.len()).to_multiset(),
{
    match group {
        GroupBy::Ungrouped => {
            let rows = spec_display_rows(us, group);
            assert(shown_packages(rows) == indices(us.len())) by {
                lemma_ungrouped_rows(us.len(), 0);
                assert(rows.skip(0) == rows);
                assert(indices(us.len()).skip(0) == indices(us.len()));
            }
        },
        GroupBy::Repository => {
            let order = sort_by(indices(us.len()), repo_then_name(us));
            lemma_repo_then_name_strict(us);
            lemma_sort_by(indices(us.len()), repo_then_name(us));
            lemma_group_rows_show_order(us, order, 0, None);
            assert(order.skip(0) == order);
        },
    }
}

proof fn lemma_ungrouped_rows(n: nat, k: int)
    requires
        0 <= k <= n,
    ensures
        shown_packages(Seq::new(n, |i: int| DisplayRowView::Package { index: i as nat }).skip(k))
            == indices(n).skip(k),
    decreases n - k,
{
    let rows = Seq::new(n, |i: int| DisplayRowView::Package { index: i as nat });
    if k < n {
        lemma_ungrouped_rows(n, k + 1);
        assert(rows.skip(k).drop_first() == rows.skip(k + 1));
        assert(indices(n).skip(k) =~= seq![k as nat] + indices(n).skip(k + 1));
    } else {
        assert(rows.skip(k) =~= Seq::<DisplayRowView>::empty());
        assert(indices(n).skip(k) =~= seq![]);
    }
}

/// Two different strings are ordered one way or the other.
proof fn lemma_lex_lt_total(a: Seq<char>, b: Seq<char>)
    ensures
        a != b ==> lex_lt(a, b) || lex_lt(b, a),
    decreases a.len(),
{
    if a.len() > 0 && b.len() > 0 {
        if (a[0] as u32) == (b[0] as u32) {
            lemma_lex_lt_total(a.drop_first(), b.drop_first());
            vstd::utf8::char_u32_cast(a[0], a[0] as u32);
            vstd::utf8::char_u32_cast(b[0], b[0] as u32);
            assert(a[0] == b[0]);
            if a.drop_first() == b.drop_first() {
                assert(a =~= seq![a[0]] + a.drop_first());
                assert(b =~= seq![b[0]] + b.drop_first());
            }
        }
    } else if a.len() == 0 && b.len() == 0 {
        assert(a =~= b);
    }
}

/// Grouped by repository, the table shows the updates sorted by
/// repository, then name, and the updates of one repository stand
/// together.
pub proof fn lemma_grouped_rows_order(us: Seq<UpdateView>)
    ensures
        shown_packages(spec_display_rows(us, GroupBy::Repository)) == sort_by(
            indices(us.len()),
            repo_then_name(us),
        ),
        is_sorted_by(shown_packages(spec_display_rows(us, GroupBy::Repository)), repo_then_name(us)),
        ({
            let o = shown_packages(spec_display_rows(us, GroupBy::Repository));
            forall|i: int, j: int, k: int|
                #![trigger o[i], o[j], o[k]]
                0 <= i < j < k < o.len() && us[o[i] as int].new_repo == us[o[k] as int].new_repo
                    ==> us[o[j] as int].new_repo == us[o[i] as int].new_repo
        }),
{
    let o = sort_by(indices(us.len()), repo_then_name(us));
    lemma_repo_then_name_strict(us);
    lemma_sort_by(indices(us.len()), repo_then_name(us));
    lemma_group_rows_show_order(us, o, 0, None);
    assert(o.skip(0) == o);
    assert forall|i: int, j: int, k: int|
        #![trigger o[i], o[j], o[k]]
        0 <= i < j < k < o.len() && us[o[i] as int].new_repo == us[o[k] as int].new_repo implies us[o[j] as int].new_repo
        == us[o[i] as int].new_repo by {
        assert(!(repo_then_name(us))(o[j], o[i]));
        assert(!(repo_then_name(us))(o[k], o[j]));
        lemma_lex_lt_total(us[o[i] as int].new_repo, us[o[j] as int].new_repo);
    }
}

/// The updates with one repository and one name.
pub open spec fn same_place(us: Seq<UpdateView>, repo: Seq<char>, name: Seq<char>) -> spec_fn(nat) -> bool {
    |i: nat| us[i as int].new_repo == repo && us[i as int].name == name
}

/// Grouped by repository, updates with the same repository and name keep
/// the order they came in.
pub proof fn lemma_grouped_rows_stable(us: Seq<UpdateView>, repo: Seq<char>, name: Seq<char>)
    ensures
        shown_packages(spec_display_rows(us, GroupBy::Repository)).filter(same_place(us, repo, name))
            == indices(us.len()).filter(same_place(us, repo, name)),
{
    let less = repo_then_name(us);
    let pred = same_place(us, repo, name);
    lemma_grouped_rows_order(us);
    lemma_repo_then_name_strict(us);
    assert forall|x: nat, y: nat| #![trigger less(x, y), pred(x), pred(y)] pred(x) && pred(y) implies !less(x, y) by {
        lemma_lex_lt_irreflexive(repo);
        lemma_lex_lt_irreflexive(name);
    }
    lemma_sort_by_stable(indices(us.len()), less, pred);
}

/// What a row of the grouped table stands next to: a header names the
/// repository of the package row right below it and comes first or right
/// after a blank; a package row follows its header or a package row of
/// the same repository; a blank stands between a package row and the
/// header of another repository.
pub open spec fn grouped_row_fits(us: Seq<UpdateView>, rows: Seq<DisplayRowView>, r: int) -> bool {
    match rows[r] {
        DisplayRowView::RepoHeader { repo } => {
            &&& r + 1 < rows.len()
            &&& rows[r + 1] matches DisplayRowView::Package { index } && repo == spec_shorten_repo(
                us[index as int].new_repo,
            )
            &&& r == 0 || rows[r - 1] is Blank
        },
        DisplayRowView::Package { index } => {
            &&& r > 0
            &&& rows[r - 1] is RepoHeader || (rows[r - 1] matches DisplayRowView::Package {
                index: j,
            } && us[j as int].new_repo == us[index as int].new_repo)
        },
        DisplayRowView::Blank => {
            &&& 0 < r
            &&& r + 2 < rows.len()
            &&& rows[r + 1] is RepoHeader
            &&& rows[r - 1] matches DisplayRowView::Package { index: j } && rows[r + 2] matches DisplayRowView::Package { index: i } && us[i as int].new_repo != us[j as int].new_repo
        },
    }
}

proof fn lemma_fits_shift(us: Seq<UpdateView>, p: Seq<DisplayRowView>, y: Seq<DisplayRowView>, r: int)
    requires
        1 <= r < y.len(),
        grouped_row_fits(us, y, r),
    ensures
        grouped_row_fits(us, p + y, r + p.len()),
{
    let x = p + y;
    let m = r + p.len();
    assert(x[m] == y[r]);
    assert(x[m - 1] == y[r - 1]);
    if r + 1 < y.len() {
        assert(x[m + 1] == y[r + 1]);
    }
    if r + 2 < y.len() {
        assert(x[m + 2] == y[r + 2]);
    }
}

/// The rows from `order[k]` on, after the package row of `order[k - 1]`.
spec fn rows_after(us: Seq<UpdateView>, order: Seq<nat>, k: int) -> Seq<DisplayRowView> {
    seq![DisplayRowView::Package { index: order[k - 1] }] + group_rows(
        us,
        order,
        k,
        Some(us[order[k - 1] as int].new_repo),
    )
}

proof fn lemma_rows_after_fit(us: Seq<UpdateView>, order: Seq<nat>, k: int)
    requires
        1 <= k <= order.len(),
    ensures
        forall|r: int| 1 <= r < rows_after(us, order, k).len() ==> grouped_row_fits(us, rows_after(us, order, k), r),
    decreases order.len() - k,
{
    let x = rows_after(us, order, k);
    let a = DisplayRowView::Package { index: order[k - 1] };
    if k < order.len() {
        let u = us[order[k] as int];
        let hdr = DisplayRowView::RepoHeader { repo: spec_shorten_repo(u.new_repo) };
        let b = DisplayRowView::Package { index: order[k] };
        let y = rows_after(us, order, k + 1);
        lemma_rows_after_fit(us, order, k + 1);
        let head = if us[order[k - 1] as int].new_repo == u.new_repo {
            seq![]
        } else {
            seq![DisplayRowView::Blank] + seq![hdr]
        };
        assert(group_rows(us, order, k, Some(us[order[k - 1] as int].new_repo)) == head + seq![b]
            + group_rows(us, order, k + 1, Some(u.new_repo)));
        let pre = seq![a] + head;
        assert(x =~= pre + y);
        assert forall|r: int| 1 <= r < x.len() implies grouped_row_fits(us, x, r) by {
            if r >= pre.len() + 1 {
                lemma_fits_shift(us, pre, y, r - pre.len());
            } else if head.len() == 0 {
                assert(x[1] == b && x[0] == a);
            } else {
                assert(x[1] == DisplayRowView::Blank && x[2] == hdr && x[3] == b && x[0] == a);
            }
        }
    } else {
        assert(group_rows(us, order, k, Some(us[order[k - 1] as int].new_repo)) =~= seq![]);
        assert(x.len() == 1);
    }
}

/// Grouped by repository, every row stands where it belongs: see
/// `grouped_row_fits`.
pub proof fn lemma_grouped_rows_headers(us: Seq<UpdateView>)
    ensures
        forall|r: int|
            0 <= r < spec_display_rows(us, GroupBy::Repository).len() ==> grouped_row_fits(
                us,
                spec_display_rows(us, GroupBy::Repository),
                r,
            ),
{
    let order = sort_by(indices(us.len()), repo_then_name(us));
    let rows = spec_display_rows(us, GroupBy::Repository);
    if order.len() > 0 {
        let u = us[order[0] as int];
        let hdr = DisplayRowView::RepoHeader { repo: spec_shorten_repo(u.new_repo) };
        let y = rows_after(us, order, 1);
        lemma_rows_after_fit(us, order, 1);
        assert(rows =~= seq![hdr] + y);
        assert forall|r: int| 0 <= r < rows.len() implies grouped_row_fits(us, rows, r) by {
            if r >= 2 {
                lemma_fits_shift(us, seq![hdr], y, r - 1);
            } else {
                assert(rows[0] == hdr && rows[1] == DisplayRowView::Package { index: order[0] });
            }
        }
    } else {
        assert(rows =~= seq![]);
    }
}

/// The totals after recording classified stderr lines one after another.
pub open spec fn record_all(info: SizeInfoView, ls: Seq<StderrLineView>) -> SizeInfoView
    decreases ls.len(),
{
    if ls.len() == 0 {
        info
    } else {
        spec_record(record_all(info, ls.drop_last()), ls.last())
    }
}

/// What the last download-total line among `ls` gave, if there is one.
pub open spec fn last_download(ls: Seq<StderrLineView>) -> Option<Option<SizeView>>
    decreases ls.len(),
{
    if ls.len() == 0 {
        None
    } else {
        match ls.last() {
            StderrLineView::DownloadSize(z) => Some(z),
            _ => last_download(ls.drop_last()),
        }
    }
}

/// What the last disk-change line among `ls` gave, if there is one.
pub open spec fn last_disk_change(ls: Seq<StderrLineView>) -> Option<Option<DiskChangeView>>
    decreases ls.len(),
{
    if ls.len() == 0 {
        None
    } else {
        match ls.last() {
            StderrLineView::DiskChange(d) => Some(d),
            _ => last_disk_change(ls.drop_last()),
        }
    }
}

/// Recording stderr lines one after another keeps, for each total, what
/// the last line of that total gave (nothing, when that line did not
/// read), and what was there before when no line gave it.
pub proof fn lemma_last_total_wins(info: SizeInfoView, ls: Seq<StderrLineView>)
    ensures
        record_all(info, ls).download == (match last_download(ls) {
            Some(z) => z,
            None => info.download,
        }),
        record_all(info, ls).net_disk == (match last_disk_change(ls) {
            Some(d) => d,
            None => info.net_disk,
        }),
    decreases ls.len(),
{
    if ls.len() > 0 {
        lemma_last_total_wins(info, ls.drop_last());
    }
}

/// The repository column shows the short name of the new repository when
/// the repository did not change; otherwise the short names of the old
/// and of the new repository, each put back together from the pieces that
/// are highlighted.
pub proof fn lemma_repo_display_shows_short_names(u: UpdateView)
    ensures
        match spec_repo_display(u) {
            RepoDisplayView::Same { repo } => (u.old_repo.len() == 0 || u.old_repo == u.new_repo)
                && repo == spec_shorten_repo(
                u.new_repo,
            ),
            RepoDisplayView::Changed { diff } => {
                &&& u.old_repo.len() > 0 && u.old_repo != u.new_repo
                &&& diff.prefix + diff.old_mid + diff.suffix == spec_shorten_repo(u.old_repo)
                &&& diff.prefix + diff.new_mid + diff.suffix == spec_shorten_repo(u.new_repo)
            },
        },
{
    lemma_highlight_diff_reassembles(spec_shorten_repo(u.old_repo), spec_shorten_repo(u.new_repo));
}

/// A shortened repository name is not shortened again.
pub proof fn lemma_shorten_repo_idempotent(repo: Seq<char>)
    ensures
        spec_shorten_repo(spec_shorten_repo(repo)) == spec_shorten_repo(repo),
{
    reveal_strlit("..");
    let s = spec_shorten_repo(repo);
    if s != repo {
        assert(s.len() == 6);
    }
}

/// The section headers dnf prints and the Transaction Summary bucket each
/// counts in: `Installing`, `Installing dependencies` and `Installing weak
/// dependencies` in `Installing`; `Upgrading`, `Downgrading` and
/// `Reinstalling` in their own; `Removing`, `Removing dependent packages`
/// and `Removing unused dependencies` in `Removing`. No other text is a
/// section.
pub proof fn lemma_section_buckets(section: Seq<char>)
    ensures
        group_of(section) == Some(SummaryGroup::Installing) <==> (section == "Installing"@
            || section == "Installing dependencies"@ || section
            == "Installing weak dependencies"@),
        group_of(section) == Some(SummaryGroup::Upgrading) <==> section == "Upgrading"@,
        group_of(section) == Some(SummaryGroup::Downgrading) <==> section == "Downgrading"@,
        group_of(section) == Some(SummaryGroup::Reinstalling) <==> section == "Reinstalling"@,
        group_of(section) == Some(SummaryGroup::Removing) <==> (section == "Removing"@ || section
            == "Removing dependent packages"@ || section == "Removing unused dependencies"@),
{
    reveal_strlit("Installing");
    reveal_strlit("Installing dependencies");
    reveal_strlit("Installing weak dependencies");
    reveal_strlit("Upgrading");
    reveal_strlit("Downgrading");
    reveal_strlit("Reinstalling");
    reveal_strlit("Removing");
    reveal_strlit("Removing dependent packages");
    reveal_strlit("Removing unused dependencies");
    assert("Installing"@.len() == 10 && "Installing dependencies"@.len() == 23);
    assert("Installing weak dependencies"@.len() == 28 && "Upgrading"@.len() == 9);
    assert("Downgrading"@.len() == 11 && "Reinstalling"@.len() == 12 && "Removing"@.len() == 8);
    assert("Removing dependent packages"@.len() == 27);
    assert("Removing unused dependencies"@.len() == 28);
    assert("Installing weak dependencies"@[0] != "Removing unused dependencies"@[0]);
}

/// Each bucket's label in the Transaction Summary is its name.
pub proof fn lemma_bucket_labels()
    ensures
        SummaryGroup::Installing.spec_label() == "Installing"@,
        SummaryGroup::Upgrading.spec_label() == "Upgrading"@,
        SummaryGroup::Downgrading.spec_label() == "Downgrading"@,
        SummaryGroup::Reinstalling.spec_label() == "Reinstalling"@,
        SummaryGroup::Removing.spec_label() == "Removing"@,
{
}

/// The units dnf prints are named `B`, `KiB`, `MiB` and `GiB`, and no
/// other name is a unit.
pub proof fn lemma_unit_names(name: Seq<char>)
    ensures
        unit_named(name) == Some(SizeUnit::B) <==> name == "B"@,
        unit_named(name) == Some(SizeUnit::KiB) <==> name == "KiB"@,
        unit_named(name) == Some(SizeUnit::MiB) <==> name == "MiB"@,
        unit_named(name) == Some(SizeUnit::GiB) <==> name == "GiB"@,
{
    reveal_strlit("B");
    reveal_strlit("KiB");
    reveal_strlit("MiB");
    reveal_strlit("GiB");
    assert("B"@.len() == 1 && "KiB"@.len() == 3 && "MiB"@.len() == 3 && "GiB"@.len() == 3);
    assert("KiB"@[0] == 'K' && "MiB"@[0] == 'M' && "GiB"@[0] == 'G');
}

/// A byte is worth one byte, and each unit is worth 1024 times the next
/// smaller one.
pub proof fn lemma_unit_worth()
    ensures
        pow2(SizeUnit::B.spec_shift() as nat) == 1,
        pow2(SizeUnit::KiB.spec_shift() as nat) == 1024 * pow2(SizeUnit::B.spec_shift() as nat),
        pow2(SizeUnit::MiB.spec_shift() as nat) == 1024 * pow2(SizeUnit::KiB.spec_shift() as nat),
        pow2(SizeUnit::GiB.spec_shift() as nat) == 1024 * pow2(SizeUnit::MiB.spec_shift() as nat),
{
    lemma2_to64();
}

/// A byte count is shown in the largest unit worth at most that count
/// (in bytes when it is 0): the unit is worth no more than the count, and
/// the count is under 1024 of the unit unless the unit is the largest.
pub proof fn lemma_display_unit_fits(bytes: u64)
    ensures
        spec_display_unit(bytes) == SizeUnit::B || pow2(spec_display_unit(bytes).spec_shift() as nat)
            <= bytes,
        spec_display_unit(bytes) == SizeUnit::GiB || bytes < 1024 * pow2(
            spec_display_unit(bytes).spec_shift() as nat,
        ),
{
    lemma2_to64();
}

/// A size reads when its number is a float literal and its unit has a
/// name; it keeps the number as written and the unit named.
pub proof fn lemma_dnf_size_keeps_what_was_written(number: Seq<char>, unit: Seq<char>)
    ensures
        spec_parse_dnf_size(number, unit) is Ok <==> is_float_literal(number) && unit_named(unit) is Some,
        spec_parse_dnf_size(number, unit) matches Ok(z) ==> z.number == number && unit_named(unit)
            == Some(z.unit),
{
}

/// The disk change is read from the words after `After this operation, `:
/// the first two are its size as written, number and unit, then `extra
/// will` for space used or `will be freed` for space freed.
pub proof fn lemma_disk_line_reads_its_words(line: Seq<char>)
    ensures
        ({
            let prefix = "After this operation, "@;
            let w = words(line.skip(prefix.len() as int));
            spec_parse_disk_line(line) matches Some(d) ==> {
                &&& starts_with(line, prefix)
                &&& w.len() >= 4
                &&& d.size.number == w[0]
                &&& is_float_literal(w[0])
                &&& unit_named(w[1]) == Some(d.size.unit)
                &&& d.freed ==> w[2] == "will"@ && w[3] == "be"@ && w[4] == "freed"@
                &&& !d.freed ==> w[2] == "extra"@ && w[3] == "will"@
            }
        }),
        ({
            let prefix = "After this operation, "@;
            let w = words(line.skip(prefix.len() as int));
            (starts_with(line, prefix) && w.len() >= 4 && is_float_literal(w[0]) && unit_named(
                w[1],
            ) is Some && ((w[2] == "extra"@ && w[3] == "will"@) || (w.len() > 4 && w[2]
                == "will"@ && w[3] == "be"@ && w[4] == "freed"@))) ==> spec_parse_disk_line(
                line,
            ) is Some
        }),
{
}

/// The download total is read from the second sentence: `Need to
/// download`, then the size as written, number and unit.
pub proof fn lemma_download_line_reads_its_words(line: Seq<char>)
    ensures
        spec_parse_download_line(line) matches Some(z) ==> second_piece(line, ". "@) matches Some(
            p,
        ) && {
            let w = words(trim_end_dots(p));
            &&& w.len() == 5
            &&& w[0] == "Need"@ && w[1] == "to"@ && w[2] == "download"@
            &&& z.number == w[3]
            &&& is_float_literal(w[3])
            &&& unit_named(w[4]) == Some(z.unit)
        },
        second_piece(line, ". "@) matches Some(p) && {
            let w = words(trim_end_dots(p));
            &&& w.len() == 5
            &&& w[0] == "Need"@ && w[1] == "to"@ && w[2] == "download"@
            &&& is_float_literal(w[3])
            &&& unit_named(w[4]) is Some
        } ==> spec_parse_download_line(line) is Some,
{
}

/// A repository name is shortened only when it is a long hash, 20 or more
/// hex digits, and then to its first two and last two digits around `..`.
pub proof fn lemma_shorten_repo_only_hashes(repo: Seq<char>)
    ensures
        spec_shorten_repo(repo) != repo ==> repo.len() >= 20 && forall|i: int|
            0 <= i < repo.len() ==> ('0' <= #[trigger] repo[i] <= '9' || 'a' <= repo[i] <= 'f'
                || 'A' <= repo[i] <= 'F'),
        (repo.len() >= 20 && forall|i: int|
            0 <= i < repo.len() ==> ('0' <= #[trigger] repo[i] <= '9' || 'a' <= repo[i] <= 'f'
                || 'A' <= repo[i] <= 'F')) ==> spec_shorten_repo(repo) == seq![repo[0], repo[1], '.', '.', repo[repo.len() - 2], repo[repo.len() - 1]],
{
    reveal_strlit("..");
    if repo.len() >= 20 && forall|i: int|
        0 <= i < repo.len() ==> ('0' <= #[trigger] repo[i] <= '9' || 'a' <= repo[i] <= 'f' || 'A'
            <= repo[i] <= 'F') {
        assert(spec_shorten_repo(repo) =~= seq![repo[0], repo[1], '.', '.', repo[repo.len() - 2], repo[repo.len() - 1]]);
    }
}

/// The highlighted prefix is the longest the two versions share: it ends
/// where either version ends or where they differ; and the suffix is the
/// longest the rests share: one changed part is empty or their last
/// characters differ.
pub proof fn lemma_highlight_diff_maximal(old: Seq<char>, new: Seq<char>)
    ensures
        ({
            let d = spec_highlight_diff(old, new);
            let p = d.prefix.len() as int;
            &&& p == old.len() || p == new.len() || old[p] != new[p]
            &&& d.old_mid.len() == 0 || d.new_mid.len() == 0 || d.old_mid.last() != d.new_mid.last()
        }),
{
    lemma_highlight_diff_reassembles(old, new);
    lemma_common_prefix_from(old, new, 0);
}

/// Without grouping, the table shows every update in the order given, one
/// package row each and nothing else.
pub proof fn lemma_ungrouped_rows_in_order(us: Seq<UpdateView>)
    ensures
        spec_display_rows(us, GroupBy::Ungrouped).len() == us.len(),
        forall|i: int|
            0 <= i < us.len() ==> #[trigger] spec_display_rows(us, GroupBy::Ungrouped)[i]
                == (DisplayRowView::Package { index: i as nat }),
        shown_packages(spec_display_rows(us, GroupBy::Ungrouped)) == indices(us.len()),
{
    let rows = spec_display_rows(us, GroupBy::Ungrouped);
    lemma_ungrouped_rows(us.len(), 0);
    assert(rows.skip(0) == rows);
    assert(indices(us.len()).skip(0) == indices(us.len()));
}

/// `String`'s order: `a < b` exactly when `a` is a proper prefix of `b`,
/// or at the first position where they differ `a` has the smaller
/// character.
pub proof fn lemma_lex_lt_first_difference(a: Seq<char>, b: Seq<char>)
    ensures
        lex_lt(a, b) <==> ((a.len() < b.len() && b.take(a.len() as int) == a) || (exists|k: int|
            0 <= k < a.len() && k < b.len() && a.take(k) == b.take(k) && (#[trigger] a[k] as u32)
                < (b[k] as u32))),
    decreases a.len(),
{
    if a.len() == 0 {
        assert(b.take(0) =~= a);
    } else if b.len() == 0 {
    } else {
        let (a1, b1) = (a.drop_first(), b.drop_first());
        lemma_lex_lt_first_difference(a1, b1);
        if (a[0] as u32) < (b[0] as u32) {
            assert(a.take(0) =~= b.take(0));
            assert((a[0] as u32) < (b[0] as u32));
        } else if (a[0] as u32) > (b[0] as u32) {
            if a.len() < b.len() && b.take(a.len() as int) == a {
                assert(b.take(a.len() as int)[0] == b[0]);
            }
            assert forall|k: int| 0 <= k < a.len() && k < b.len() && a.take(k) == b.take(k) implies !((#[trigger] a[k] as u32) < (b[k] as u32)) by {
                if k > 0 {
                    assert(a.take(k)[0] == b.take(k)[0]);
                }
            }
        } else {
            vstd::utf8::char_u32_cast(a[0], a[0] as u32);
            vstd::utf8::char_u32_cast(b[0], b[0] as u32);
            assert(a[0] == b[0]);
            if a1.len() < b1.len() && b1.take(a1.len() as int) == a1 {
                assert(b.take(a.len() as int) =~= seq![b[0]] + b1.take(a1.len() as int));
                assert(a =~= seq![a[0]] + a1);
            }
            if a.len() < b.len() && b.take(a.len() as int) == a {
                assert(b1.take(a1.len() as int) =~= b.take(a.len() as int).drop_first());
                assert(a1 =~= a.drop_first());
            }
            if exists|k: int| 0 <= k < a1.len() && k < b1.len() && a1.take(k) == b1.take(k) && (#[trigger] a1[k] as u32) < (b1[k] as u32) {
                let k = choose|k: int| 0 <= k < a1.len() && k < b1.len() && a1.take(k) == b1.take(k) && (#[trigger] a1[k] as u32) < (b1[k] as u32);
                assert(a.take(k + 1) =~= seq![a[0]] + a1.take(k));
                assert(b.take(k + 1) =~= seq![b[0]] + b1.take(k));
                assert(a[k + 1] == a1[k] && b[k + 1] == b1[k]);
            }
            if exists|k: int| 0 <= k < a.len() && k < b.len() && a.take(k) == b.take(k) && (#[trigger] a[k] as u32) < (b[k] as u32) {
                let k = choose|k: int| 0 <= k < a.len() && k < b.len() && a.take(k) == b.take(k) && (#[trigger] a[k] as u32) < (b[k] as u32);
                assert(k > 0);
                assert(a1.take(k - 1) =~= a.take(k).drop_first());
                assert(b1.take(k - 1) =~= b.take(k).drop_first());
                assert(a1[k - 1] == a[k] && b1[k - 1] == b[k]);
            }
        }
    }
}

proof fn lemma_pairs_map_entry(a: Seq<(Seq<char>, nat)>, label: Seq<char>, n: nat)
    ensures
        pairs_map(a + entry_if(label, n)) == (if n > 0 {
            pairs_map(a).insert(label, n)
        } else {
            pairs_map(a)
        }),
{
    if n > 0 {
        assert((a + seq![(label, n)]).drop_last() =~= a);
    } else {
        assert(a + entry_if(label, n) =~= a);
    }
}

/// The summary the sections call for lists, under `Downgrading`,
/// `Installing`, `Reinstalling`, `Removing` and `Upgrading`, the package
/// lines counted in that bucket, and under `Replacing` the `replacing`
/// sub-lines; a label is listed exactly when its count is not zero, and
/// no other label is.
pub proof fn lemma_expected_summary(p: ParserView, label: Seq<char>)
    ensures
        ({
            let m = pairs_map(expected_pairs(p));
            let count: int = if label == seq!['D', 'o', 'w', 'n', 'g', 'r', 'a', 'd', 'i', 'n', 'g'] {
                p.counts.downgrading as int
            } else if label == seq!['I', 'n', 's', 't', 'a', 'l', 'l', 'i', 'n', 'g'] {
                p.counts.installing as int
            } else if label == seq!['R', 'e', 'i', 'n', 's', 't', 'a', 'l', 'l', 'i', 'n', 'g'] {
                p.counts.reinstalling as int
            } else if label == seq!['R', 'e', 'm', 'o', 'v', 'i', 'n', 'g'] {
                p.counts.removing as int
            } else if label == seq!['R', 'e', 'p', 'l', 'a', 'c', 'i', 'n', 'g'] {
                p.replacing as int
            } else if label == seq!['U', 'p', 'g', 'r', 'a', 'd', 'i', 'n', 'g'] {
                p.counts.upgrading as int
            } else {
                0
            };
            &&& m.contains_key(label) <==> count > 0
            &&& m.contains_key(label) ==> m[label] == count
        }),
{
    reveal_strlit("Downgrading");
    reveal_strlit("Installing");
    reveal_strlit("Reinstalling");
    reveal_strlit("Removing");
    reveal_strlit("Replacing");
    reveal_strlit("Upgrading");
    let dg = "Downgrading"@;
    let ins = "Installing"@;
    let re = "Reinstalling"@;
    let rm = "Removing"@;
    let rp = "Replacing"@;
    let up = "Upgrading"@;
    assert(dg =~= seq!['D', 'o', 'w', 'n', 'g', 'r', 'a', 'd', 'i', 'n', 'g']);
    assert(ins =~= seq!['I', 'n', 's', 't', 'a', 'l', 'l', 'i', 'n', 'g']);
    assert(re =~= seq!['R', 'e', 'i', 'n', 's', 't', 'a', 'l', 'l', 'i', 'n', 'g']);
    assert(rm =~= seq!['R', 'e', 'm', 'o', 'v', 'i', 'n', 'g']);
    assert(rp =~= seq!['R', 'e', 'p', 'l', 'a', 'c', 'i', 'n', 'g']);
    assert(up =~= seq!['U', 'p', 'g', 'r', 'a', 'd', 'i', 'n', 'g']);
    assert(rp[0] != up[0]);
    let e0 = Seq::<(Seq<char>, nat)>::empty();
    let e1 = e0 + entry_if(dg, p.counts.downgrading);
    let e2 = e1 + entry_if(ins, p.counts.installing);
    let e3 = e2 + entry_if(re, p.counts.reinstalling);
    let e4 = e3 + entry_if(rm, p.counts.removing);
    let e5 = e4 + entry_if(rp, p.replacing);
    let e6 = e5 + entry_if(up, p.counts.upgrading);
    assert(e1 =~= entry_if(dg, p.counts.downgrading));
    assert(e6 =~= expected_pairs(p));
    lemma_pairs_map_entry(e0, dg, p.counts.downgrading);
    lemma_pairs_map_entry(e1, ins, p.counts.installing);
    lemma_pairs_map_entry(e2, re, p.counts.reinstalling);
    lemma_pairs_map_entry(e3, rm, p.counts.removing);
    lemma_pairs_map_entry(e4, rp, p.replacing);
    lemma_pairs_map_entry(e5, up, p.counts.upgrading);
    assert(pairs_map(e0) == Map::<Seq<char>, nat>::empty());
}

/// The package spec handed to dnf: name, `-`, the new version, `.`, and
/// the arch.
pub proof fn lemma_upgrade_spec(u: UpdateView)
    ensures
        upgrade_spec(u) == u.name + seq!['-'] + u.new_version + seq!['.'] + u.arch,
{
    reveal_strlit("-");
    reveal_strlit(".");
    assert("-"@ =~= seq!['-']);
    assert("."@ =~= seq!['.']);
}

/// A column is as wide as its widest value: no value is wider, and with
/// any updates at all one value is exactly that wide.
pub proof fn lemma_column_width_is_widest(us: Seq<UpdateView>, col: spec_fn(UpdateView) -> Seq<char>)
    ensures
        forall|i: int| 0 <= i < us.len() ==> byte_len(col(#[trigger] us[i])) <= max_width(us, col),
        us.len() == 0 ==> max_width(us, col) == 0,
        us.len() > 0 ==> exists|i: int| 0 <= i < us.len() && max_width(us, col) == byte_len(col(#[trigger] us[i])),
    decreases us.len(),
{
    if us.len() > 0 {
        let r = us.drop_last();
        lemma_column_width_is_widest(r, col);
        assert forall|i: int| 0 <= i < us.len() implies byte_len(col(#[trigger] us[i])) <= max_width(us, col) by {
            if i < r.len() {
                assert(us[i] == r[i]);
            }
        }
        if byte_len(col(us.last())) > max_width(r, col) || r.len() == 0 {
            assert(max_width(us, col) == byte_len(col(us[us.len() - 1])) || r.len() == 0);
            if r.len() == 0 {
                assert(max_width(us, col) == byte_len(col(us[0])));
            }
        } else {
            let j = choose|i: int| 0 <= i < r.len() && max_width(r, col) == byte_len(col(#[trigger] r[i]));
            assert(us[j] == r[j]);
        }
    }
}

/// How many bytes UTF-8 takes for a character: one below U+0080, two
/// below U+0800, three below U+10000, four above.
pub open spec fn utf8_width(c: char) -> nat {
    if (c as u32) < 0x80 {
        1
    } else if (c as u32) < 0x800 {
        2
    } else if (c as u32) < 0x10000 {
        3
    } else {
        4
    }
}

/// The UTF-8 widths of the characters of `s`, added up.
pub open spec fn utf8_widths(s: Seq<char>) -> nat
    decreases s.len(),
{
    if s.len() == 0 {
        0
    } else {
        utf8_width(s[0]) + utf8_widths(s.drop_first())
    }
}

proof fn lemma_encode_len(s: Seq<char>)
    ensures
        vstd::utf8::encode_utf8(s).len() == utf8_widths(s),
    decreases s.len(),
{
    if s.len() > 0 {
        lemma_encode_len(s.drop_first());
        vstd::utf8::char_is_scalar(s[0]);
    }
}

/// A column's width counts bytes as `str::len` does: each character
/// takes its UTF-8 width (so text in ASCII takes one byte a character).
pub proof fn lemma_byte_len_counts_utf8(s: Seq<char>)
    requires
        utf8_widths(s) <= usize::MAX,
    ensures
        byte_len(s) == utf8_widths(s),
{
    lemma_encode_len(s);
}

/// The package lines counted in bucket `g`.
pub open spec fn bucket(c: crate::parser::CountsView, g: SummaryGroup) -> nat {
    match g {
        SummaryGroup::Installing => c.installing,
        SummaryGroup::Upgrading => c.upgrading,
        SummaryGroup::Downgrading => c.downgrading,
        SummaryGroup::Reinstalling => c.reinstalling,
        SummaryGroup::Removing => c.removing,
    }
}

/// A package line in a section counts once in the section's bucket and in
/// no other. In `Upgrading:` it adds an update made of the line's words:
/// name, arch, the version without a `0:` epoch as the new version, the
/// repository as the new one, the size as written; and the next line must
/// be its `replacing` sub-line. In any other section nothing else changes.
pub proof fn lemma_package_line_effect(p: ParserView, line: Seq<char>, g: SummaryGroup, upgrading: bool)
    requires
        p.state == (StateView::Section { group: g, upgrading }),
        spec_parse_package_row(line) is Ok,
    ensures
        ({
            let (q, e) = spec_feed(p, line);
            let w = words(line);
            &&& e is None
            &&& forall|h: SummaryGroup| #[trigger] bucket(q.counts, h) == bucket(p.counts, h) + (if h == g { 1int } else { 0int })
            &&& q.summary == p.summary && q.replacing == p.replacing
            &&& upgrading ==> {
                &&& q.state == (StateView::Replacing { name: w[0] })
                &&& q.updates.len() == p.updates.len() + 1
                &&& q.updates.drop_last() == p.updates
                &&& q.updates.last().name == w[0]
                &&& q.updates.last().arch == w[1]
                &&& q.updates.last().new_version == spec_normalize_version(w[2])
                &&& q.updates.last().new_repo == w[3]
                &&& q.updates.last().old_version.len() == 0
                &&& q.updates.last().old_repo.len() == 0
                &&& q.updates.last().download_size.number == w[4]
                &&& unit_named(w[5]) == Some(q.updates.last().download_size.unit)
            }
            &&& !upgrading ==> q.updates == p.updates && q.state == p.state
        }),
{
    crate::field_laws::lemma_package_row_fields(line);
    reveal_strlit(" ");
    assert(line.len() > 0 && line[0] == ' ');
    assert(header_text(line) is None);
    let (q, e) = spec_feed(p, line);
    if upgrading {
        assert(q.updates.drop_last() =~= p.updates);
    }
}

/// A `replacing` sub-line gives the update waiting for it its old version,
/// without a `0:` epoch, and its old repository, from the sub-line's third
/// and fourth words after `replacing`; nothing else of the updates
/// changes, one more `replacing` line is counted, and the section goes on.
pub proof fn lemma_replacing_line_effect(p: ParserView, line: Seq<char>, name: Seq<char>)
    requires
        p.state == (StateView::Replacing { name }),
        p.updates.len() > 0,
        crate::parser::replacing_line_valid(line, name),
    ensures
        ({
            let (q, e) = spec_feed(p, line);
            let w = words(line.skip(13));
            let last = p.updates.len() - 1;
            &&& e is None
            &&& q.state == (StateView::Section { group: SummaryGroup::Upgrading, upgrading: true })
            &&& q.replacing == p.replacing + 1
            &&& q.counts == p.counts && q.summary == p.summary
            &&& q.updates.len() == p.updates.len()
            &&& forall|k: int| 0 <= k < last ==> #[trigger] q.updates[k] == p.updates[k]
            &&& q.updates[last].old_version == spec_normalize_version(w[2])
            &&& q.updates[last].old_repo == w[3]
            &&& q.updates[last].name == p.updates[last].name
            &&& q.updates[last].arch == p.updates[last].arch
            &&& q.updates[last].new_version == p.updates[last].new_version
            &&& q.updates[last].new_repo == p.updates[last].new_repo
            &&& q.updates[last].download_size == p.updates[last].download_size
        }),
{
    crate::field_laws::lemma_replacing_prefix();
}

/// A summary count line with a new label records the label and count in
/// the order read; a label read before is an error.
pub proof fn lemma_summary_line_effect(p: ParserView, line: Seq<char>)
    requires
        p.state == StateView::Summary,
        line.len() > 0,
        spec_parse_summary_count(line) is Ok,
    ensures
        ({
            let (q, e) = spec_feed(p, line);
            let (label, n) = spec_parse_summary_count(line)->Ok_0;
            &&& (forall|k: int| 0 <= k < p.summary.len() ==> #[trigger] p.summary[k].0 != label) ==> e
                is None && q.summary == p.summary.push((label, n)) && q.state == StateView::Summary
            &&& (exists|k: int| 0 <= k < p.summary.len() && #[trigger] p.summary[k].0 == label) ==> e
                == Some(crate::error::LineErrorView::DuplicateSummaryLabel { label })
            &&& q.updates == p.updates && q.counts == p.counts && q.replacing == p.replacing
        }),
{
    let (label, n) = spec_parse_summary_count(line)->Ok_0;
    crate::parser::lemma_label_index(p.summary, label);
}

/// What `finish` gives, when it succeeds, goes by name in `String`'s
/// order: no name is less than a name before it.
pub proof fn lemma_finish_names_ascending(p: ParserView)
    requires
        spec_finish(p) is Ok,
    ensures
        forall|i: int, j: int|
            0 <= i < j < spec_finish(p)->Ok_0.len() ==> !lex_lt(
                #[trigger] spec_finish(p)->Ok_0[j].name,
                #[trigger] spec_finish(p)->Ok_0[i].name,
            ),
{
    lemma_finish_sorted_stable(p, seq![]);
    let v = spec_finish(p)->Ok_0;
    assert forall|i: int, j: int| 0 <= i < j < v.len() implies !lex_lt(#[trigger] v[j].name, #[trigger] v[i].name) by {
        assert(!(by_name())(v[j], v[i]));
    }
}

/// Grouped by repository, repositories come in `String`'s order, and
/// within one repository the names do.
pub proof fn lemma_grouped_rows_ascending(us: Seq<UpdateView>)
    ensures
        ({
            let o = shown_packages(spec_display_rows(us, GroupBy::Repository));
            forall|i: int, j: int|
                #![trigger o[i], o[j]]
                0 <= i < j < o.len() ==> !lex_lt(us[o[j] as int].new_repo, us[o[i] as int].new_repo)
                    && (us[o[j] as int].new_repo == us[o[i] as int].new_repo ==> !lex_lt(
                    us[o[j] as int].name,
                    us[o[i] as int].name,
                ))
        }),
{
    lemma_grouped_rows_order(us);
    let o = shown_packages(spec_display_rows(us, GroupBy::Repository));
    assert forall|i: int, j: int| #![trigger o[i], o[j]] 0 <= i < j < o.len() implies !lex_lt(us[o[j] as int].new_repo, us[o[i] as int].new_repo)
        && (us[o[j] as int].new_repo == us[o[i] as int].new_repo ==> !lex_lt(us[o[j] as int].name, us[o[i] as int].name)) by {
        assert(!(repo_then_name(us))(o[j], o[i]));
    }
}

/// Dots at the end go: what is left ends in something else, and the dots
/// put back give the text.
pub proof fn lemma_trim_end_dots(t: Seq<char>)
    ensures
        t.len() >= trim_end_dots(t).len(),
        t.take(trim_end_dots(t).len() as int) == trim_end_dots(t),
        forall|k: int| trim_end_dots(t).len() <= k < t.len() ==> #[trigger] t[k] == '.',
        trim_end_dots(t).len() == 0 || trim_end_dots(t).last() != '.',
    decreases t.len(),
{
    if t.len() > 0 && t.last() == '.' {
        lemma_trim_end_dots(t.drop_last());
        let r = trim_end_dots(t);
        assert(t.drop_last().take(r.len() as int) =~= t.take(r.len() as int));
        assert forall|k: int| r.len() <= k < t.len() implies #[trigger] t[k] == '.' by {
            if k < t.len() - 1 {
                assert(t[k] == t.drop_last()[k]);
            }
        }
    } else {
        assert(t.take(t.len() as int) =~= t);
    }
}

proof fn lemma_occurrence_at(s: Seq<char>, from: int, k: int)
    requires
        0 <= from <= k,
        k + 2 <= s.len(),
        s[k] == '.' && s[k + 1] == ' ',
        forall|j: int| from <= j < k ==> #[trigger] s[j] != '.',
    ensures
        crate::progress::occurrence(s, ". "@, from) == Some(k),
    decreases k - from,
{
    reveal_strlit(". ");
    if from < k {
        assert(s.subrange(from, from + 2)[0] == s[from]);
        lemma_occurrence_at(s, from + 1, k);
    } else {
        assert(s.subrange(k, k + 2) =~= ". "@);
    }
}

proof fn lemma_occurrence_none(s: Seq<char>, from: int)
    requires
        0 <= from,
        forall|j: int| from <= j < s.len() ==> #[trigger] s[j] != '.',
    ensures
        crate::progress::occurrence(s, ". "@, from) is None,
    decreases s.len() + 1 - from,
{
    reveal_strlit(". ");
    if from + 2 <= s.len() {
        assert(s.subrange(from, from + 2)[0] == s[from]);
        lemma_occurrence_none(s, from + 1);
    }
}

/// The second sentence of a line, as the download total is looked for in
/// it: with sentences ending in `". "`, the text between the first and the
/// second end, or after the first end when there is no second; none when
/// the line has no sentence end.
pub proof fn lemma_second_sentence(a: Seq<char>, b: Seq<char>, c: Seq<char>)
    requires
        forall|j: int| 0 <= j < a.len() ==> #[trigger] a[j] != '.',
        forall|j: int| 0 <= j < b.len() ==> #[trigger] b[j] != '.',
    ensures
        second_piece(a + seq!['.', ' '] + b + seq!['.', ' '] + c, ". "@) == Some(b),
        second_piece(a + seq!['.', ' '] + b, ". "@) == Some(b),
        second_piece(a, ". "@) is None,
{
    reveal_strlit(". ");
    assert(". "@.len() == 2);
    let s1 = a + seq!['.', ' '] + b + seq!['.', ' '] + c;
    let k1 = a.len() as int;
    let k2 = (a.len() + 2 + b.len()) as int;
    assert forall|j: int| 0 <= j < k1 implies #[trigger] s1[j] != '.' by {
        assert(s1[j] == a[j]);
    }
    lemma_occurrence_at(s1, 0, k1);
    assert forall|j: int| k1 + 2 <= j < k2 implies #[trigger] s1[j] != '.' by {
        assert(s1[j] == b[j - k1 - 2]);
    }
    lemma_occurrence_at(s1, k1 + 2, k2);
    assert(s1.subrange(k1 + 2, k2) =~= b);
    let s2 = a + seq!['.', ' '] + b;
    assert forall|j: int| 0 <= j < k1 implies #[trigger] s2[j] != '.' by {
        assert(s2[j] == a[j]);
    }
    lemma_occurrence_at(s2, 0, k1);
    assert forall|j: int| k1 + 2 <= j < s2.len() implies #[trigger] s2[j] != '.' by {
        assert(s2[j] == b[j - k1 - 2]);
    }
    lemma_occurrence_none(s2, k1 + 2);
    assert(s2.subrange(k1 + 2, s2.len() as int) =~= b);
    lemma_occurrence_none(a, 0);
}

/// The title gives each total dnf reported, as reported, and falls back on
/// the sum of the package sizes only when dnf reported neither.
pub proof fn lemma_title_size_reports_totals(info: SizeInfoView)
    ensures
        spec_title_size(info) is PackageSum <==> info.download is None && info.net_disk is None,
        spec_title_size(info) matches TitleSizeView::Both { download, disk } ==> info.download
            == Some(download) && info.net_disk == Some(disk),
        spec_title_size(info) matches TitleSizeView::Download { download } ==> info.download
            == Some(download) && info.net_disk is None,
        spec_title_size(info) matches TitleSizeView::Disk { disk } ==> info.download is None
            && info.net_disk == Some(disk),
{
}

/// What a blank line does in each state: nothing before the table, an
/// error where a section header or a `replacing` sub-line or the summary
/// header is due, the end of the sections inside a section (the summary
/// header is due next), the end of the summary inside it, and nothing
/// after it.
pub proof fn lemma_blank_line_in_each_state(p: ParserView)
    ensures
        ({
            let (q, e) = spec_feed(p, Seq::empty());
            &&& p.state is Header ==> e is None && q.state is Header
            &&& p.state is ExpectSection ==> e is Some
            &&& p.state is Section ==> e is None && q.state is SummaryHeader
            &&& p.state is Replacing ==> e is Some
            &&& p.state is SummaryHeader ==> e is Some
            &&& p.state is Summary ==> e is None && q.state is End
            &&& p.state is End ==> e is None && q.state is End
            &&& q.updates == p.updates && q.counts == p.counts && q.summary == p.summary
                && q.replacing == p.replacing
        }),
{
    let empty = Seq::<char>::empty();
    assert(header_text(empty) is None);
    reveal_strlit("   replacing ");
    assert(!crate::text::starts_with(empty, crate::parser::replacing_prefix()));
}

} // verus!
