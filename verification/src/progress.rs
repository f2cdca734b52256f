//! The lines dnf writes to stderr while it checks for upgrades: repository
//! loading, which drives a spinner, and the download and disk-space totals.
use vstd::prelude::*;
use crate::size::{size_from_chars, spec_parse_dnf_size, DnfSize, SizeView};
use crate::text::{
    chars_eq, chars_of, chars_start_with, chars_start_with_at, seqs_of, split_words, starts_with,
    sub_chars, words,
};

verus! {

/// The first place at or after `from` where `pat` occurs in `s`.
pub open spec fn occurrence(s: Seq<char>, pat: Seq<char>, from: int) -> Option<int>
    decreases s.len() + 1 - from,
{
    if from < 0 || from + pat.len() > s.len() {
        None
    } else if s.subrange(from, from + pat.len()) == pat {
        Some(from)
    } else {
        occurrence(s, pat, from + 1)
    }
}

/// The second piece of `s` split at `pat` (`s.split(pat).nth(1)`).
pub open spec fn second_piece(s: Seq<char>, pat: Seq<char>) -> Option<Seq<char>> {
    match occurrence(s, pat, 0) {
        None => None,
        Some(k) => {
            let st = k + pat.len();
            match occurrence(s, pat, st) {
                None => Some(s.subrange(st, s.len() as int)),
                Some(k2) => Some(s.subrange(st, k2)),
            }
        },
    }
}

/// `t` without trailing `'.'`s (`trim_end_matches('.')`).
pub open spec fn trim_end_dots(t: Seq<char>) -> Seq<char>
    decreases t.len(),
{
    if t.len() > 0 && t.last() == '.' {
        trim_end_dots(t.drop_last())
    } else {
        t
    }
}

/// What `parse_download_line` gives for
/// `Total size of inbound packages is 53 MiB. Need to download 53 MiB.`:
/// the size after `Need to download` in the second sentence.
pub open spec fn spec_parse_download_line(line: Seq<char>) -> Option<SizeView> {
    match second_piece(line, ". "@) {
        None => None,
        Some(p) => {
            let w = words(trim_end_dots(p));
            if w.len() == 5 && w[0] == "Need"@ && w[1] == "to"@ && w[2] == "download"@ {
                match spec_parse_dnf_size(w[3], w[4]) {
                    Ok(z) => Some(z),
                    Err(_) => None,
                }
            } else {
                None
            }
        },
    }
}

/// The change in disk use a transaction announces.
#[derive(Debug)]
pub struct DiskChange {
    pub size: DnfSize,
    /// The space is freed rather than used.
    pub freed: bool,
}

pub ghost struct DiskChangeView {
    pub size: SizeView,
    pub freed: bool,
}

impl View for DiskChange {
    type V = DiskChangeView;

    open spec fn view(&self) -> DiskChangeView {
        DiskChangeView { size: self.size@, freed: self.freed }
    }
}

/// What `parse_disk_line` gives for
/// `After this operation, 11 MiB extra will be used (...)` (space used) or
/// `After this operation, 5 MiB will be freed (...)` (space freed).
pub open spec fn spec_parse_disk_line(line: Seq<char>) -> Option<DiskChangeView> {
    let prefix = "After this operation, "@;
    if !starts_with(line, prefix) {
        None
    } else {
        let w = words(line.skip(prefix.len() as int));
        if w.len() < 4 {
            None
        } else {
            match spec_parse_dnf_size(w[0], w[1]) {
                Err(_) => None,
                Ok(size) => if w[2] == "extra"@ && w[3] == "will"@ {
                    Some(DiskChangeView { size, freed: false })
                } else if w[2] == "will"@ && w[3] == "be"@ && w.len() > 4 && w[4] == "freed"@ {
                    Some(DiskChangeView { size, freed: true })
                } else {
                    None
                },
            }
        }
    }
}

/// Where `lit` occurs in `v` at or after `from`, and nowhere between.
fn find_at(v: &Vec<char>, lit: &str, from: usize) -> (r: Option<usize>)
    requires
        from <= v.len(),
    ensures
        match r {
            Some(k) => occurrence(v@, lit@, from as int) == Some(k as int) && from <= k && k
                + lit@.len() <= v.len(),
            None => occurrence(v@, lit@, from as int) is None,
        },
{
    let n = lit.unicode_len();
    if n > v.len() {
        return None;
    }
    if n == 0 {
        assert(v@.subrange(from as int, from as int) == lit@);
        return Some(from);
    }
    let mut k = from;
    while k <= v.len() - n
        invariant
            n == lit@.len(),
            0 < n <= v.len(),
            from <= k <= v.len(),
            occurrence(v@, lit@, from as int) == occurrence(v@, lit@, k as int),
        decreases v.len() - k,
    {
        if chars_start_with_at(v, k, lit) {
            assert(v@.skip(k as int).take(n as int) == v@.subrange(k as int, k + n));
            return Some(k);
        }
        assert(v@.skip(k as int).take(n as int) == v@.subrange(k as int, k + n));
        k += 1;
    }
    None
}

/// The size to download, from the line dnf starts with `Total size of
/// inbound packages is`.
pub fn parse_download_line(line: &str) -> (r: Option<DnfSize>)
    ensures
        match r {
            Some(z) => spec_parse_download_line(line@) == Some(z@),
            None => spec_parse_download_line(line@) is None,
        },
{
    let v = chars_of(line);
    let k = match find_at(&v, ". ", 0) {
        None => {
            return None;
        },
        Some(k) => k,
    };
    let st = k + ". ".unicode_len();
    let end = match find_at(&v, ". ", st) {
        None => v.len(),
        Some(k2) => k2,
    };
    let mut e = end;
    while e > st && v[e - 1] == '.'
        invariant
            st <= e <= end <= v.len(),
            trim_end_dots(v@.subrange(st as int, end as int)) == trim_end_dots(
                v@.subrange(st as int, e as int),
            ),
        decreases e - st,
    {
        assert(v@.subrange(st as int, e as int).drop_last() == v@.subrange(st as int, e - 1));
        e -= 1;
    }
    let piece = sub_chars(&v, st, e);
    assert(piece@ == trim_end_dots(v@.subrange(st as int, end as int)));
    let w = split_words(&piece);
    let ghost wv = seqs_of(w@);
    assert(wv.len() == w@.len());
    if w.len() != 5 {
        return None;
    }
    assert(wv[0] == w@[0]@ && wv[1] == w@[1]@ && wv[2] == w@[2]@ && wv[3] == w@[3]@ && wv[4]
        == w@[4]@);
    if !(chars_eq(&w[0], "Need") && chars_eq(&w[1], "to") && chars_eq(&w[2], "download")) {
        return None;
    }
    match size_from_chars(&w[3], &w[4]) {
        Ok(z) => Some(z),
        Err(_) => None,
    }
}

/// The change in disk use, from the line dnf starts with `After this
/// operation,`.
pub fn parse_disk_line(line: &str) -> (r: Option<DiskChange>)
    ensures
        match r {
            Some(d) => spec_parse_disk_line(line@) == Some(d@),
            None => spec_parse_disk_line(line@) is None,
        },
{
    let v = chars_of(line);
    let prefix = "After this operation, ";
    if !chars_start_with(&v, prefix) {
        return None;
    }
    let rest = sub_chars(&v, prefix.unicode_len(), v.len());
    let w = split_words(&rest);
    let ghost wv = seqs_of(w@);
    assert(wv.len() == w@.len());
    if w.len() < 4 {
        return None;
    }
    assert(wv[0] == w@[0]@ && wv[1] == w@[1]@ && wv[2] == w@[2]@ && wv[3] == w@[3]@);
    let size = match size_from_chars(&w[0], &w[1]) {
        Err(_) => {
            return None;
        },
        Ok(z) => z,
    };
    if chars_eq(&w[2], "extra") && chars_eq(&w[3], "will") {
        Some(DiskChange { size, freed: false })
    } else if chars_eq(&w[2], "will") && chars_eq(&w[3], "be") && w.len() > 4 && chars_eq(
        &w[4],
        "freed",
    ) {
        assert(wv[4] == w@[4]@);
        Some(DiskChange { size, freed: true })
    } else {
        proof {
            if w.len() > 4 {
                assert(wv[4] == w@[4]@);
            }
        }
        None
    }
}

/// What a line of dnf's stderr means while it checks for upgrades.
#[derive(Debug)]
pub enum StderrLine {
    /// `Updating and loading repositories:`: a spinner starts.
    LoadingRepositories,
    /// `Repositories loaded.`: the spinner stops.
    RepositoriesLoaded,
    /// `Operation aborted by the user.`: nothing to show.
    Aborted,
    /// The download total, if the line reads as one.
    DownloadSize(Option<DnfSize>),
    /// The change in disk use, if the line reads as one.
    DiskChange(Option<DiskChange>),
    /// Anything else, shown to the user as it is.
    Other,
}

pub ghost enum StderrLineView {
    LoadingRepositories,
    RepositoriesLoaded,
    Aborted,
    DownloadSize(Option<SizeView>),
    DiskChange(Option<DiskChangeView>),
    Other,
}

impl View for StderrLine {
    type V = StderrLineView;

    open spec fn view(&self) -> StderrLineView {
        match self {
            StderrLine::LoadingRepositories => StderrLineView::LoadingRepositories,
            StderrLine::RepositoriesLoaded => StderrLineView::RepositoriesLoaded,
            StderrLine::Aborted => StderrLineView::Aborted,
            StderrLine::DownloadSize(z) => StderrLineView::DownloadSize(
                match z {
                    Some(s) => Some(s@),
                    None => None,
                },
            ),
            StderrLine::DiskChange(d) => StderrLineView::DiskChange(
                match d {
                    Some(c) => Some(c@),
                    None => None,
                },
            ),
            StderrLine::Other => StderrLineView::Other,
        }
    }
}

/// How a stderr line is taken: three exact messages, the two total lines
/// by their start, anything else shown.
pub open spec fn spec_classify_stderr_line(line: Seq<char>) -> StderrLineView {
    if line == "Updating and loading repositories:"@ {
        StderrLineView::LoadingRepositories
    } else if line == "Repositories loaded."@ {
        StderrLineView::RepositoriesLoaded
    } else if line == "Operation aborted by the user."@ {
        StderrLineView::Aborted
    } else if starts_with(line, "Total size of inbound packages is"@) {
        StderrLineView::DownloadSize(spec_parse_download_line(line))
    } else if starts_with(line, "After this operation,"@) {
        StderrLineView::DiskChange(spec_parse_disk_line(line))
    } else {
        StderrLineView::Other
    }
}

/// Tells what a line of dnf's stderr means.
pub fn classify_stderr_line(line: &str) -> (r: StderrLine)
    ensures
        r@ == spec_classify_stderr_line(line@),
{
    let v = chars_of(line);
    if chars_eq(&v, "Updating and loading repositories:") {
        StderrLine::LoadingRepositories
    } else if chars_eq(&v, "Repositories loaded.") {
        StderrLine::RepositoriesLoaded
    } else if chars_eq(&v, "Operation aborted by the user.") {
        StderrLine::Aborted
    } else if chars_start_with(&v, "Total size of inbound packages is") {
        StderrLine::DownloadSize(parse_download_line(line))
    } else if chars_start_with(&v, "After this operation,") {
        StderrLine::DiskChange(parse_disk_line(line))
    } else {
        StderrLine::Other
    }
}

/// The totals dnf reported: what to download and the change in disk use.
#[derive(Debug)]
pub struct SizeInfo {
    pub download: Option<DnfSize>,
    pub net_disk: Option<DiskChange>,
}

pub ghost struct SizeInfoView {
    pub download: Option<SizeView>,
    pub net_disk: Option<DiskChangeView>,
}

impl View for SizeInfo {
    type V = SizeInfoView;

    open spec fn view(&self) -> SizeInfoView {
        SizeInfoView {
            download: match self.download {
                Some(s) => Some(s@),
                None => None,
            },
            net_disk: match self.net_disk {
                Some(d) => Some(d@),
                None => None,
            },
        }
    }
}

/// The totals after a stderr line: a total line replaces its total, even
/// with nothing when it does not read; other lines change nothing.
pub open spec fn spec_record(info: SizeInfoView, l: StderrLineView) -> SizeInfoView {
    match l {
        StderrLineView::DownloadSize(z) => SizeInfoView { download: z, net_disk: info.net_disk },
        StderrLineView::DiskChange(d) => SizeInfoView { download: info.download, net_disk: d },
        _ => info,
    }
}

impl SizeInfo {
    /// No totals yet.
    pub fn new() -> (s: SizeInfo)
        ensures
            s@ == (SizeInfoView { download: None, net_disk: None }),
    {
        SizeInfo { download: None, net_disk: None }
    }

    /// Takes a classified stderr line into account.
    pub fn record(&mut self, l: StderrLine)
        ensures
            final(self)@ == spec_record(old(self)@, l@),
    {
        match l {
            StderrLine::DownloadSize(z) => {
                self.download = z;
            },
            StderrLine::DiskChange(d) => {
                self.net_disk = d;
            },
            _ => {},
        }
    }

    /// What the title of the upgrade table says of sizes.
    pub fn title_size(self) -> (t: TitleSize)
        ensures
            t@ == spec_title_size(self@),
    {
        match (self.download, self.net_disk) {
            (Some(download), Some(disk)) => TitleSize::Both { download, disk },
            (Some(download), None) => TitleSize::Download { download },
            (None, Some(disk)) => TitleSize::Disk { disk },
            (None, None) => TitleSize::PackageSum,
        }
    }
}

/// The sizes the title of the upgrade table gives: both totals dnf
/// reported, the one it reported, or, when it reported neither, the sum of
/// the package sizes.
#[derive(Debug)]
pub enum TitleSize {
    Both { download: DnfSize, disk: DiskChange },
    Download { download: DnfSize },
    Disk { disk: DiskChange },
    PackageSum,
}

pub ghost enum TitleSizeView {
    Both { download: SizeView, disk: DiskChangeView },
    Download { download: SizeView },
    Disk { disk: DiskChangeView },
    PackageSum,
}

impl View for TitleSize {
    type V = TitleSizeView;

    open spec fn view(&self) -> TitleSizeView {
        match self {
            TitleSize::Both { download, disk } => TitleSizeView::Both {
                download: download@,
                disk: disk@,
            },
            TitleSize::Download { download } => TitleSizeView::Download { download: download@ },
            TitleSize::Disk { disk } => TitleSizeView::Disk { disk: disk@ },
            TitleSize::PackageSum => TitleSizeView::PackageSum,
        }
    }
}

pub open spec fn spec_title_size(info: SizeInfoView) -> TitleSizeView {
    match (info.download, info.net_disk) {
        (Some(download), Some(disk)) => TitleSizeView::Both { download, disk },
        (Some(download), None) => TitleSizeView::Download { download },
        (None, Some(disk)) => TitleSizeView::Disk { disk },
        (None, None) => TitleSizeView::PackageSum,
    }
}

} // verus!
