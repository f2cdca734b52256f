//! What the upgrade table shows: which part of a version changed, short
//! forms of hash-named repositories, column widths, the order and grouping
//! of rows, the package specs handed to `dnf upgrade`, and the answer to
//! the confirmation prompt.
use vstd::prelude::*;
use crate::number::{decimal, push_decimal};
use crate::parser::{update_views, PackageUpdate, UpdateView};
use crate::sort::{insert_pos, lemma_insert_sorted, lex_lt, sort_by, str_lt};
use crate::text::{chars_of, string_of, string_of_range, trim, trim_bounds};

verus! {

/// Length of the common prefix of `a` and `b`, from position `i` on.
pub open spec fn common_prefix_from(a: Seq<char>, b: Seq<char>, i: int) -> int
    decreases a.len() - i,
{
    if i < 0 || i >= a.len() || i >= b.len() || a[i] != b[i] {
        i
    } else {
        common_prefix_from(a, b, i + 1)
    }
}

/// Length of the longest common prefix of `a` and `b`.
pub open spec fn common_prefix(a: Seq<char>, b: Seq<char>) -> int {
    common_prefix_from(a, b, 0)
}

/// Length of the longest common suffix of `a` and `b`.
pub open spec fn common_suffix(a: Seq<char>, b: Seq<char>) -> int {
    common_prefix(a.reverse(), b.reverse())
}

pub proof fn lemma_common_prefix_from(a: Seq<char>, b: Seq<char>, i: int)
    requires
        0 <= i <= a.len(),
        i <= b.len(),
    ensures
        i <= common_prefix_from(a, b, i) <= a.len(),
        common_prefix_from(a, b, i) <= b.len(),
        forall|k: int| i <= k < common_prefix_from(a, b, i) ==> #[trigger] a[k] == b[k],
        common_prefix_from(a, b, i) < a.len() && common_prefix_from(a, b, i) < b.len() ==> a[common_prefix_from(a, b, i)] != b[common_prefix_from(a, b, i)],
    decreases a.len() - i,
{
    if i < a.len() && i < b.len() && a[i] == b[i] {
        lemma_common_prefix_from(a, b, i + 1);
    }
}

/// The first byte of the UTF-8 encoding of `c`.
pub open spec fn utf8_first(c: char) -> u8 {
    vstd::utf8::encode_scalar(c as u32)[0]
}

/// The last byte of the UTF-8 encoding of `c`.
pub open spec fn utf8_last(c: char) -> u8 {
    vstd::utf8::encode_scalar(c as u32).last()
}

/// The split of two versions into an unchanged prefix, the changed middles,
/// and an unchanged suffix.
#[derive(Debug)]
pub struct DiffSegments {
    pub prefix: String,
    pub old_mid: String,
    pub new_mid: String,
    pub suffix: String,
}

pub ghost struct DiffView {
    pub prefix: Seq<char>,
    pub old_mid: Seq<char>,
    pub new_mid: Seq<char>,
    pub suffix: Seq<char>,
}

impl View for DiffSegments {
    type V = DiffView;

    open spec fn view(&self) -> DiffView {
        DiffView {
            prefix: self.prefix@,
            old_mid: self.old_mid@,
            new_mid: self.new_mid@,
            suffix: self.suffix@,
        }
    }
}

/// `old` and `new` split at their longest common prefix, and what is left
/// of them at their longest common suffix.
pub open spec fn spec_highlight_diff(old: Seq<char>, new: Seq<char>) -> DiffView {
    let p = common_prefix(old, new);
    let o = old.skip(p);
    let n = new.skip(p);
    let q = common_suffix(o, n);
    DiffView {
        prefix: old.take(p),
        old_mid: o.take(o.len() - q),
        new_mid: n.take(n.len() - q),
        suffix: o.skip(o.len() - q),
    }
}

/// The common prefix and suffix, taken byte by byte, end between
/// characters: after the common characters, the next characters differ in
/// their first UTF-8 byte, and before the common suffix the characters
/// differ in their last byte. Otherwise slicing the strings there panics.
pub open spec fn diff_on_char_boundaries(old: Seq<char>, new: Seq<char>) -> bool {
    let p = common_prefix(old, new);
    let o = old.skip(p);
    let n = new.skip(p);
    let q = common_suffix(o, n);
    &&& (p < old.len() && p < new.len()) ==> utf8_first(old[p]) != utf8_first(new[p])
    &&& (q < o.len() && q < n.len()) ==> utf8_last(o[o.len() - 1 - q]) != utf8_last(
        n[n.len() - 1 - q],
    )
}

/// The first byte of the UTF-8 encoding of `c`.
fn first_byte(c: char) -> (b: u8)
    ensures
        b == utf8_first(c),
{
    let v = c as u32;
    if v <= 0x7F {
        (v & 0x7F) as u8
    } else if v <= 0x7FF {
        0xC0 | ((v >> 6) & 0x1F) as u8
    } else if v <= 0xFFFF {
        0xE0 | ((v >> 12) & 0x0F) as u8
    } else {
        0xF0 | ((v >> 18) & 0x7) as u8
    }
}

/// The last byte of the UTF-8 encoding of `c`.
fn last_byte(c: char) -> (b: u8)
    ensures
        b == utf8_last(c),
{
    let v = c as u32;
    if v <= 0x7F {
        (v & 0x7F) as u8
    } else {
        0x80 | (v & 0x3F) as u8
    }
}

/// The common prefix length of `a` and `b`, and the common suffix length of
/// what follows it.
fn diff_bounds(a: &Vec<char>, b: &Vec<char>) -> (r: (usize, usize))
    ensures
        r.0 == common_prefix(a@, b@),
        r.0 <= a.len() && r.0 <= b.len(),
        r.1 == common_suffix(a@.skip(r.0 as int), b@.skip(r.0 as int)),
        r.1 <= a.len() - r.0 && r.1 <= b.len() - r.0,
{
    let mut p: usize = 0;
    while p < a.len() && p < b.len() && a[p] == b[p]
        invariant
            p <= a.len() && p <= b.len(),
            common_prefix(a@, b@) == common_prefix_from(a@, b@, p as int),
        decreases a.len() - p,
    {
        p += 1;
    }
    let ghost o = a@.skip(p as int);
    let ghost n = b@.skip(p as int);
    let mut q: usize = 0;
    while q < a.len() - p && q < b.len() - p && a[a.len() - 1 - q] == b[b.len() - 1 - q]
        invariant
            p <= a.len() && p <= b.len(),
            o == a@.skip(p as int),
            n == b@.skip(p as int),
            q <= a.len() - p && q <= b.len() - p,
            common_suffix(o, n) == common_prefix_from(o.reverse(), n.reverse(), q as int),
        decreases a.len() - p - q,
    {
        assert(o.reverse()[q as int] == a@[a.len() - 1 - q]);
        assert(n.reverse()[q as int] == b@[b.len() - 1 - q]);
        q += 1;
    }
    proof {
        if q < a.len() - p && q < b.len() - p {
            assert(o.reverse()[q as int] == a@[a.len() - 1 - q]);
            assert(n.reverse()[q as int] == b@[b.len() - 1 - q]);
        }
    }
    (p, q)
}

/// Whether the common prefix and suffix of `old` and `new` end between
/// characters, which `highlight_diff` needs.
pub fn diff_fits_chars(old: &str, new: &str) -> (b: bool)
    ensures
        b == diff_on_char_boundaries(old@, new@),
{
    let a = chars_of(old);
    let c = chars_of(new);
    let (p, q) = diff_bounds(&a, &c);
    let ghost o = a@.skip(p as int);
    let ghost n = c@.skip(p as int);
    let first_ok = !(p < a.len() && p < c.len()) || first_byte(a[p]) != first_byte(c[p]);
    let last_ok = !(q < a.len() - p && q < c.len() - p) || last_byte(a[a.len() - 1 - q])
        != last_byte(c[c.len() - 1 - q]);
    proof {
        if q < a.len() - p && q < c.len() - p {
            assert(o[o.len() - 1 - q] == a@[a.len() - 1 - q]);
            assert(n[n.len() - 1 - q] == c@[c.len() - 1 - q]);
        }
    }
    first_ok && last_ok
}

/// Splits two versions into the unchanged prefix, the changed middle of
/// each, and the unchanged suffix, for highlighting only what changed.
pub fn highlight_diff(old: &str, new: &str) -> (d: DiffSegments)
    requires
        diff_on_char_boundaries(old@, new@),
    ensures
        d@ == spec_highlight_diff(old@, new@),
{
    let a = chars_of(old);
    let c = chars_of(new);
    let (p, q) = diff_bounds(&a, &c);
    let ghost o = a@.skip(p as int);
    let ghost n = c@.skip(p as int);
    let prefix = string_of_range(&a, 0, p);
    let old_mid = string_of_range(&a, p, a.len() - q);
    let new_mid = string_of_range(&c, p, c.len() - q);
    let suffix = string_of_range(&a, a.len() - q, a.len());
    assert(prefix@ == a@.take(p as int));
    assert(old_mid@ == o.take(o.len() - q));
    assert(new_mid@ == n.take(n.len() - q));
    assert(suffix@ == o.skip(o.len() - q));
    DiffSegments { prefix, old_mid, new_mid, suffix }
}

pub open spec fn is_hex_digit(c: char) -> bool {
    ('0' <= c && c <= '9') || ('a' <= c && c <= 'f') || ('A' <= c && c <= 'F')
}

/// A repository named by a long hash (20 or more hex digits) is shown by
/// its first two and last two digits; any other name as it is.
pub open spec fn spec_shorten_repo(repo: Seq<char>) -> Seq<char> {
    if repo.len() >= 20 && forall|i: int| 0 <= i < repo.len() ==> is_hex_digit(#[trigger] repo[i]) {
        repo.take(2) + ".."@ + repo.skip(repo.len() - 2)
    } else {
        repo
    }
}

/// Shortens a hash-named repository to `ab..yz`.
pub fn shorten_repo(repo: &str) -> (s: String)
    ensures
        s@ == spec_shorten_repo(repo@),
{
    let v = chars_of(repo);
    let n = v.len();
    if n < 20 {
        return string_of(&v);
    }
    let mut i: usize = 0;
    while i < n
        invariant
            n == v@.len(),
            v@ == repo@,
            0 <= i <= n,
            forall|k: int| 0 <= k < i ==> is_hex_digit(#[trigger] v@[k]),
        decreases n - i,
    {
        let c = v[i];
        if !(('0' <= c && c <= '9') || ('a' <= c && c <= 'f') || ('A' <= c && c <= 'F')) {
            assert(!is_hex_digit(repo@[i as int]));
            return string_of(&v);
        }
        i += 1;
    }
    let mut s = string_of_range(&v, 0, 2);
    s.append("..");
    let tail = string_of_range(&v, n - 2, n);
    s.append(tail.as_str());
    assert(s@ =~= spec_shorten_repo(repo@));
    s
}

/// The package spec that pins dnf to exactly the version shown:
/// `name-[epoch:]version-release.arch`.
pub open spec fn upgrade_spec(u: UpdateView) -> Seq<char> {
    u.name + "-"@ + u.new_version + "."@ + u.arch
}

/// The package specs for `dnf upgrade`, one per update, in order.
pub fn upgrade_specs(updates: &[PackageUpdate]) -> (specs: Vec<String>)
    ensures
        specs@.len() == updates@.len(),
        forall|i: int| 0 <= i < updates@.len() ==> #[trigger] specs@[i]@ == upgrade_spec(
            updates@[i]@,
        ),
{
    let mut specs: Vec<String> = Vec::new();
    let mut i: usize = 0;
    while i < updates.len()
        invariant
            0 <= i <= updates@.len(),
            specs@.len() == i,
            forall|k: int| 0 <= k < i ==> #[trigger] specs@[k]@ == upgrade_spec(updates@[k]@),
        decreases updates@.len() - i,
    {
        let u = &updates[i];
        let mut s = u.name.clone();
        s.append("-");
        s.append(u.new_version.as_str());
        s.append(".");
        s.append(u.arch.as_str());
        assert(s@ =~= upgrade_spec(u@));
        specs.push(s);
        i += 1;
    }
    specs
}

/// The arguments for `dnf`: `upgrade -y` and the package specs.
pub open spec fn spec_upgrade_args(us: Seq<UpdateView>) -> Seq<Seq<char>> {
    seq!["upgrade"@, "-y"@] + us.map_values(|u: UpdateView| upgrade_spec(u))
}

/// The texts of strings.
pub open spec fn string_views(s: Seq<String>) -> Seq<Seq<char>> {
    s.map_values(|a: String| a@)
}

/// The arguments that make `dnf` upgrade exactly the updates shown.
pub fn upgrade_args(updates: &[PackageUpdate]) -> (args: Vec<String>)
    ensures
        string_views(args@) == spec_upgrade_args(update_views(updates@)),
{
    let specs = upgrade_specs(updates);
    let mut args: Vec<String> = Vec::new();
    args.push(String::from_str("upgrade"));
    args.push(String::from_str("-y"));
    let mut i: usize = 0;
    while i < specs.len()
        invariant
            0 <= i <= specs@.len(),
            specs@.len() == updates@.len(),
            forall|k: int| 0 <= k < updates@.len() ==> #[trigger] specs@[k]@ == upgrade_spec(
                updates@[k]@,
            ),
            args@.len() == i + 2,
            args@[0]@ == "upgrade"@,
            args@[1]@ == "-y"@,
            forall|k: int| 0 <= k < i ==> #[trigger] args@[k + 2]@ == upgrade_spec(updates@[k]@),
        decreases specs@.len() - i,
    {
        args.push(specs[i].clone());
        i += 1;
    }
    let ghost want = spec_upgrade_args(update_views(updates@));
    let ghost av = string_views(args@);
    assert(av =~= want) by {
        assert forall|k: int| 0 <= k < want.len() implies #[trigger] av[k] == want[k] by {
            if k >= 2 {
                assert(args@[(k - 2) + 2]@ == upgrade_spec(updates@[k - 2]@));
            }
        }
    }
    args
}

/// How many bytes `s` takes in UTF-8, as `str::len` reports it.
pub open spec fn byte_len(s: Seq<char>) -> nat {
    (vstd::utf8::encode_utf8(s).len() as usize) as nat
}

/// The widest value, in bytes, of a column over the updates; 0 for none.
pub open spec fn max_width(us: Seq<UpdateView>, col: spec_fn(UpdateView) -> Seq<char>) -> nat
    decreases us.len(),
{
    if us.len() == 0 {
        0
    } else {
        let w = byte_len(col(us.last()));
        let m = max_width(us.drop_last(), col);
        if w > m {
            w
        } else {
            m
        }
    }
}

pub open spec fn name_col() -> spec_fn(UpdateView) -> Seq<char> {
    |u: UpdateView| u.name
}

pub open spec fn arch_col() -> spec_fn(UpdateView) -> Seq<char> {
    |u: UpdateView| u.arch
}

pub open spec fn old_version_col() -> spec_fn(UpdateView) -> Seq<char> {
    |u: UpdateView| u.old_version
}

pub open spec fn new_version_col() -> spec_fn(UpdateView) -> Seq<char> {
    |u: UpdateView| u.new_version
}

/// The widths, in bytes, of the text columns of the upgrade table.
#[derive(Debug)]
pub struct ColumnWidths {
    pub name: usize,
    pub arch: usize,
    pub old_version: usize,
    pub new_version: usize,
}

/// Which text column of an update.
#[derive(Clone, Copy)]
pub enum Column {
    Name,
    Arch,
    OldVersion,
    NewVersion,
}

pub open spec fn column_fn(c: Column) -> spec_fn(UpdateView) -> Seq<char> {
    match c {
        Column::Name => name_col(),
        Column::Arch => arch_col(),
        Column::OldVersion => old_version_col(),
        Column::NewVersion => new_version_col(),
    }
}

/// The text of a column of an update.
fn column_text(u: &PackageUpdate, c: Column) -> (s: &str)
    ensures
        s@ == (column_fn(c))(u@),
{
    match c {
        Column::Name => u.name.as_str(),
        Column::Arch => u.arch.as_str(),
        Column::OldVersion => u.old_version.as_str(),
        Column::NewVersion => u.new_version.as_str(),
    }
}

/// The widest value of a column, in bytes.
fn column_width(updates: &[PackageUpdate], c: Column) -> (w: usize)
    ensures
        w as nat == max_width(update_views(updates@), column_fn(c)),
{
    let ghost vs = update_views(updates@);
    let mut w: usize = 0;
    let mut i: usize = 0;
    assert(vs.take(0) =~= seq![]);
    while i < updates.len()
        invariant
            0 <= i <= updates@.len(),
            vs == update_views(updates@),
            w as nat == max_width(vs.take(i as int), column_fn(c)),
        decreases updates@.len() - i,
    {
        let l = column_text(&updates[i], c).len();
        assert(vs.take(i + 1).drop_last() == vs.take(i as int));
        assert(vs.take(i + 1).last() == updates@[i as int]@);
        if l > w {
            w = l;
        }
        i += 1;
    }
    assert(vs.take(updates@.len() as int) == vs);
    w
}

/// The widths of the name, arch, and version columns: the longest value
/// of each, in bytes.
pub fn column_widths(updates: &[PackageUpdate]) -> (w: ColumnWidths)
    ensures
        w.name as nat == max_width(update_views(updates@), name_col()),
        w.arch as nat == max_width(update_views(updates@), arch_col()),
        w.old_version as nat == max_width(update_views(updates@), old_version_col()),
        w.new_version as nat == max_width(update_views(updates@), new_version_col()),
{
    ColumnWidths {
        name: column_width(updates, Column::Name),
        arch: column_width(updates, Column::Arch),
        old_version: column_width(updates, Column::OldVersion),
        new_version: column_width(updates, Column::NewVersion),
    }
}

/// How the rows of the upgrade table are grouped.
#[derive(Clone, Copy, Debug, PartialEq, Eq, Structural)]
pub enum GroupBy {
    /// Under a header per repository, ordered by repository then name.
    Repository,
    /// One list, in the order given.
    Ungrouped,
}

/// A line of the upgrade table.
#[derive(Debug)]
pub enum DisplayRow {
    /// The blank line between repository groups.
    Blank,
    /// The header of a repository group: the repository's short name.
    RepoHeader { repo: String },
    /// The row of the update at this index.
    Package { index: usize },
}

pub ghost enum DisplayRowView {
    Blank,
    RepoHeader { repo: Seq<char> },
    Package { index: nat },
}

impl View for DisplayRow {
    type V = DisplayRowView;

    open spec fn view(&self) -> DisplayRowView {
        match self {
            DisplayRow::Blank => DisplayRowView::Blank,
            DisplayRow::RepoHeader { repo } => DisplayRowView::RepoHeader { repo: repo@ },
            DisplayRow::Package { index } => DisplayRowView::Package { index: *index as nat },
        }
    }
}

pub open spec fn row_views(s: Seq<DisplayRow>) -> Seq<DisplayRowView> {
    s.map_values(|r: DisplayRow| r@)
}

/// Updates ordered by repository, then by name.
pub open spec fn repo_then_name(us: Seq<UpdateView>) -> spec_fn(nat, nat) -> bool {
    |i: nat, j: nat|
        lex_lt(us[i as int].new_repo, us[j as int].new_repo) || (us[i as int].new_repo
            == us[j as int].new_repo && lex_lt(us[i as int].name, us[j as int].name))
}

/// The indices `0..n`.
pub open spec fn indices(n: nat) -> Seq<nat> {
    Seq::new(n, |i: int| i as nat)
}

/// The rows for the updates at `order[k..]`, `current` being the
/// repository of the group open before them: a blank line and a header
/// whenever the repository changes.
pub open spec fn group_rows(us: Seq<UpdateView>, order: Seq<nat>, k: int, current: Option<Seq<char>>) -> Seq<DisplayRowView>
    decreases order.len() - k,
{
    if k < 0 || k >= order.len() {
        seq![]
    } else {
        let u = us[order[k] as int];
        let head = if current == Some(u.new_repo) {
            seq![]
        } else {
            (if current is Some {
                seq![DisplayRowView::Blank]
            } else {
                seq![]
            }) + seq![DisplayRowView::RepoHeader { repo: spec_shorten_repo(u.new_repo) }]
        };
        head + seq![DisplayRowView::Package { index: order[k] }] + group_rows(
            us,
            order,
            k + 1,
            Some(u.new_repo),
        )
    }
}

/// The lines of the upgrade table: without grouping, every update in
/// order; by repository, the updates sorted by repository then name
/// (stable), under a header per repository, groups separated by a blank
/// line.
pub open spec fn spec_display_rows(us: Seq<UpdateView>, group: GroupBy) -> Seq<DisplayRowView> {
    match group {
        GroupBy::Ungrouped => Seq::new(us.len(), |i: int| DisplayRowView::Package { index: i as nat }),
        GroupBy::Repository => group_rows(
            us,
            sort_by(indices(us.len()), repo_then_name(us)),
            0,
            None,
        ),
    }
}

/// Whether update `i` goes before update `j`: by repository, then name.
fn repo_name_lt(updates: &[PackageUpdate], i: usize, j: usize) -> (b: bool)
    requires
        i < updates@.len(),
        j < updates@.len(),
    ensures
        b == (repo_then_name(update_views(updates@)))(i as nat, j as nat),
{
    let a = &updates[i];
    let c = &updates[j];
    str_lt(a.new_repo.as_str(), c.new_repo.as_str()) || (a.new_repo == c.new_repo && str_lt(
        a.name.as_str(),
        c.name.as_str(),
    ))
}

/// The indices of the updates sorted by repository, then name (stable).
fn repo_order(updates: &[PackageUpdate]) -> (order: Vec<usize>)
    ensures
        order@.map_values(|i: usize| i as nat) == sort_by(
            indices(updates@.len()),
            repo_then_name(update_views(updates@)),
        ),
        forall|k: int| 0 <= k < order@.len() ==> #[trigger] order@[k] < updates@.len(),
{
    let ghost less = repo_then_name(update_views(updates@));
    let ghost idx = indices(updates@.len());
    let mut order: Vec<usize> = Vec::new();
    assert(idx.take(0) =~= seq![]);
    assert(order@.map_values(|i: usize| i as nat) =~= seq![]);
    let mut i: usize = 0;
    while i < updates.len()
        invariant
            0 <= i <= updates@.len(),
            less == repo_then_name(update_views(updates@)),
            idx == indices(updates@.len()),
            order@.map_values(|i: usize| i as nat) == sort_by(idx.take(i as int), less),
            forall|k: int| 0 <= k < order@.len() ==> #[trigger] order@[k] < i,
        decreases updates@.len() - i,
    {
        let ghost t = order@.map_values(|i: usize| i as nat);
        let mut p: usize = 0;
        while p < order.len() && !repo_name_lt(updates, i, order[p])
            invariant
                0 <= p <= order@.len(),
                i < updates@.len(),
                less == repo_then_name(update_views(updates@)),
                t == order@.map_values(|i: usize| i as nat),
                forall|k: int| 0 <= k < order@.len() ==> #[trigger] order@[k] < i,
                forall|k: int| 0 <= k < p ==> !less(i as nat, #[trigger] t[k]),
            decreases order@.len() - p,
        {
            p += 1;
        }
        proof {
            lemma_insert_sorted(t, i as nat, less);
            let ip = insert_pos(t, i as nat, less);
            if ip < p {
                assert(!less(i as nat, t[ip]));
            }
            if p < ip {
                assert(less(i as nat, t[p as int]));
            }
            assert(ip == p);
            assert(idx.take(i + 1).drop_last() == idx.take(i as int));
            assert(idx.take(i + 1).last() == i as nat);
        }
        order.insert(p, i);
        assert(order@.map_values(|i: usize| i as nat) =~= t.take(p as int) + seq![i as nat] + t.skip(
            p as int,
        ));
        i += 1;
    }
    assert(idx.take(updates@.len() as int) == idx);
    order
}

/// The lines of the upgrade table, for the given grouping.
pub fn display_rows(updates: &[PackageUpdate], group: GroupBy) -> (rows: Vec<DisplayRow>)
    ensures
        row_views(rows@) == spec_display_rows(update_views(updates@), group),
{
    let ghost us = update_views(updates@);
    let mut rows: Vec<DisplayRow> = Vec::new();
    match group {
        GroupBy::Ungrouped => {
            let mut i: usize = 0;
            while i < updates.len()
                invariant
                    0 <= i <= updates@.len(),
                    row_views(rows@) == Seq::new(
                        i as nat,
                        |k: int| DisplayRowView::Package { index: k as nat },
                    ),
                decreases updates@.len() - i,
            {
                let ghost before = rows@;
                rows.push(DisplayRow::Package { index: i });
                assert(rows@ == before.push(DisplayRow::Package { index: i }));
                assert(row_views(rows@) =~= row_views(before).push(
                    DisplayRowView::Package { index: i as nat },
                ));
                assert(row_views(rows@) =~= Seq::new(
                    (i + 1) as nat,
                    |k: int| DisplayRowView::Package { index: k as nat },
                ));
                i += 1;
            }
            assert(us.len() == updates@.len());
            rows
        },
        GroupBy::Repository => {
            let order = repo_order(updates);
            let ghost ov = order@.map_values(|i: usize| i as nat);
            let mut current: Option<&str> = None;
            let mut k: usize = 0;
            assert(row_views(rows@) =~= seq![]);
            while k < order.len()
                invariant
                    0 <= k <= order@.len(),
                    us == update_views(updates@),
                    ov == order@.map_values(|i: usize| i as nat),
                    forall|m: int| 0 <= m < order@.len() ==> #[trigger] order@[m] < updates@.len(),
                    row_views(rows@) + group_rows(us, ov, k as int, opt_view(current))
                        == group_rows(us, ov, 0, None),
                decreases order@.len() - k,
            {
                let u = &updates[order[k]];
                let ghost before = row_views(rows@);
                let same = match current {
                    Some(c) => str_eq(c, u.new_repo.as_str()),
                    None => false,
                };
                if !same {
                    if current.is_some() {
                        rows.push(DisplayRow::Blank);
                    }
                    rows.push(DisplayRow::RepoHeader { repo: shorten_repo(u.new_repo.as_str()) });
                }
                rows.push(DisplayRow::Package { index: order[k] });
                assert(ov[k as int] == order@[k as int] as nat);
                assert(us[order@[k as int] as int] == u@);
                assert(row_views(rows@) + group_rows(us, ov, k + 1, Some(u@.new_repo))
                    =~= before + group_rows(us, ov, k as int, opt_view(current)));
                current = Some(u.new_repo.as_str());
                k += 1;
            }
            assert(row_views(rows@) =~= row_views(rows@) + group_rows(us, ov, k as int, opt_view(current)));
            rows
        },
    }
}

pub open spec fn opt_view(o: Option<&str>) -> Option<Seq<char>> {
    match o {
        Some(s) => Some(s@),
        None => None,
    }
}

/// Whether two strings hold the same characters.
fn str_eq(a: &str, b: &str) -> (r: bool)
    ensures
        r == (a@ == b@),
{
    crate::text::chars_eq(&chars_of(a), b)
}

/// How the repository column shows an update: the new repository alone
/// when it did not change (or the old one is unknown), else the old and
/// new short names split for highlighting.
#[derive(Debug)]
pub enum RepoDisplay {
    Same { repo: String },
    Changed { diff: DiffSegments },
}

pub ghost enum RepoDisplayView {
    Same { repo: Seq<char> },
    Changed { diff: DiffView },
}

impl View for RepoDisplay {
    type V = RepoDisplayView;

    open spec fn view(&self) -> RepoDisplayView {
        match self {
            RepoDisplay::Same { repo } => RepoDisplayView::Same { repo: repo@ },
            RepoDisplay::Changed { diff } => RepoDisplayView::Changed { diff: diff@ },
        }
    }
}

pub open spec fn repo_unchanged(u: UpdateView) -> bool {
    u.old_repo.len() == 0 || u.old_repo == u.new_repo
}

pub open spec fn spec_repo_display(u: UpdateView) -> RepoDisplayView {
    if repo_unchanged(u) {
        RepoDisplayView::Same { repo: spec_shorten_repo(u.new_repo) }
    } else {
        RepoDisplayView::Changed {
            diff: spec_highlight_diff(spec_shorten_repo(u.old_repo), spec_shorten_repo(u.new_repo)),
        }
    }
}

/// What `repo_display` needs: a changed repository's short names split
/// between characters.
pub open spec fn repo_display_fits(u: UpdateView) -> bool {
    repo_unchanged(u) || diff_on_char_boundaries(
        spec_shorten_repo(u.old_repo),
        spec_shorten_repo(u.new_repo),
    )
}

/// Whether `repo_display` can show this update.
pub fn repo_display_fits_chars(u: &PackageUpdate) -> (b: bool)
    ensures
        b == repo_display_fits(u@),
{
    if u.old_repo.as_str().is_empty() || u.old_repo == u.new_repo {
        true
    } else {
        let o = shorten_repo(u.old_repo.as_str());
        let n = shorten_repo(u.new_repo.as_str());
        diff_fits_chars(o.as_str(), n.as_str())
    }
}

/// How the repository column shows an update.
pub fn repo_display(u: &PackageUpdate) -> (r: RepoDisplay)
    requires
        repo_display_fits(u@),
    ensures
        r@ == spec_repo_display(u@),
{
    if u.old_repo.as_str().is_empty() || u.old_repo == u.new_repo {
        RepoDisplay::Same { repo: shorten_repo(u.new_repo.as_str()) }
    } else {
        let o = shorten_repo(u.old_repo.as_str());
        let n = shorten_repo(u.new_repo.as_str());
        RepoDisplay::Changed { diff: highlight_diff(o.as_str(), n.as_str()) }
    }
}

/// `N package` or `N packages`.
pub open spec fn spec_packages_phrase(count: nat) -> Seq<char> {
    decimal(count) + " package"@ + if count == 1 {
        ""@
    } else {
        "s"@
    }
}

/// `N package` or `N packages`, for the table's title.
pub fn packages_phrase(count: usize) -> (s: String)
    ensures
        s@ == spec_packages_phrase(count as nat),
{
    proof {
        reveal_strlit("");
    }
    let mut s = String::new();
    push_decimal(&mut s, count);
    s.append(" package");
    let ghost mid = s@;
    if count != 1 {
        s.append("s");
    } else {
        assert(s@ =~= mid + ""@);
    }
    assert(s@ =~= spec_packages_phrase(count as nat));
    s
}

/// The lower-case form of `s`, as `str::to_lowercase` gives it.
pub uninterp spec fn lowercase(s: Seq<char>) -> Seq<char>;

/// The lower-case form of `s`. Trusted: the body is a call of
/// `str::to_lowercase`, which the contract takes to depend on the
/// characters of `s` alone; the Unicode case mapping it leaves unsaid.
#[verifier::external_body]
fn to_lowercase(s: &str) -> (r: String)
    ensures
        r@ == lowercase(s@),
{
    s.to_lowercase()
}

/// An answer that goes ahead: empty, `y` or `yes`.
pub open spec fn spec_is_affirmative(lowered: Seq<char>) -> bool {
    lowered == ""@ || lowered == "y"@ || lowered == "yes"@
}

/// Whether a lower-cased answer goes ahead: empty, `y` or `yes`.
pub fn is_affirmative(lowered: &str) -> (b: bool)
    ensures
        b == spec_is_affirmative(lowered@),
{
    let v = chars_of(lowered);
    crate::text::chars_eq(&v, "") || crate::text::chars_eq(&v, "y") || crate::text::chars_eq(
        &v,
        "yes",
    )
}

/// Whether the answer to `Proceed with upgrade? [Y/n]` goes ahead: trimmed
/// and lower-cased, it is empty, `y` or `yes`.
pub fn confirms_upgrade(answer: &str) -> (b: bool)
    ensures
        b == spec_is_affirmative(lowercase(trim(answer@))),
{
    let v = chars_of(answer);
    let (a, e) = trim_bounds(&v);
    let t = string_of_range(&v, a, e);
    let lowered = to_lowercase(t.as_str());
    is_affirmative(lowered.as_str())
}

} // verus!
