use fnf::progress::{classify_stderr_line, parse_disk_line, parse_download_line, SizeInfo, StderrLine, TitleSize};
use fnf::size::{display_unit, parse_dnf_size, SizeUnit};

#[test]
fn dnf_sizes_accept_float_literals() {
    for n in ["3.3", "0", "12.", ".5", "1e3", "1E-3", "+2.5", "-1", "inf", "Infinity", "NaN"] {
        assert!(parse_dnf_size(n, "MiB").is_ok(), "{n}");
    }
    for n in ["", ".", "1e", "e5", "1.2.3", "x", "1_000", " 1"] {
        match parse_dnf_size(n, "MiB") {
            Err(e) => assert!(e.message().starts_with("invalid size number")),
            Ok(_) => panic!("{n:?} accepted"),
        }
    }
}

#[test]
fn dnf_size_units_and_error_order() {
    assert_eq!(parse_dnf_size("1", "GiB").unwrap().unit, SizeUnit::GiB);
    assert_eq!(parse_dnf_size("1", "KiB").unwrap().unit.shift(), 10);
    assert_eq!(parse_dnf_size("1", "B").unwrap().unit.shift(), 0);
    assert_eq!(parse_dnf_size("1", "kB").unwrap_err().message(), "unknown size unit: \"kB\"");
    // the number is checked before the unit
    assert_eq!(parse_dnf_size("x", "kB").unwrap_err().message(), "invalid size number: \"x\": invalid float literal");
    assert_eq!(parse_dnf_size("", "B").unwrap_err().message(), "invalid size number: \"\": cannot parse float from empty string");
}

#[test]
fn download_line() {
    let z = parse_download_line("Total size of inbound packages is 53 MiB. Need to download 53 MiB.").unwrap();
    assert_eq!(z.number, "53");
    assert_eq!(z.unit, SizeUnit::MiB);
    let z = parse_download_line("Total size of inbound packages is 5 GiB. Need to download 1.5 GiB...").unwrap();
    assert_eq!(z.number, "1.5");
    assert!(parse_download_line("Total size of inbound packages is 53 MiB.").is_none());
    assert!(parse_download_line("Total size of inbound packages is 53 MiB. Download 53 MiB.").is_none());
    assert!(parse_download_line("Total size of inbound packages is 53 MiB. Need to download x MiB.").is_none());
}

#[test]
fn disk_line() {
    let d = parse_disk_line("After this operation, 11 MiB extra will be used (install 275 MiB, remove 264 MiB).").unwrap();
    assert_eq!(d.size.number, "11");
    assert!(!d.freed);
    let d = parse_disk_line("After this operation, 5 MiB will be freed (install 264 MiB, remove 269 MiB).").unwrap();
    assert_eq!(d.size.number, "5");
    assert!(d.freed);
    assert!(parse_disk_line("After this operation, 5 MiB will be").is_none());
    assert!(parse_disk_line("After this operation, 5 MiB").is_none());
    assert!(parse_disk_line("after this operation, 5 MiB extra will").is_none());
}

#[test]
fn stderr_lines_are_classified() {
    assert!(matches!(classify_stderr_line("Updating and loading repositories:"), StderrLine::LoadingRepositories));
    assert!(matches!(classify_stderr_line("Repositories loaded."), StderrLine::RepositoriesLoaded));
    assert!(matches!(classify_stderr_line("Operation aborted by the user."), StderrLine::Aborted));
    assert!(matches!(classify_stderr_line("Total size of inbound packages is 1 B. Need to download 1 B."), StderrLine::DownloadSize(Some(_))));
    assert!(matches!(classify_stderr_line("Total size of inbound packages is garbage"), StderrLine::DownloadSize(None)));
    assert!(matches!(classify_stderr_line("After this operation, 1 B extra will be used."), StderrLine::DiskChange(Some(_))));
    assert!(matches!(classify_stderr_line("Some warning"), StderrLine::Other));
}

#[test]
fn size_info_keeps_the_latest_totals() {
    let mut info = SizeInfo::new();
    info.record(classify_stderr_line("Total size of inbound packages is 1 B. Need to download 2 KiB."));
    assert_eq!(info.download.as_ref().unwrap().number, "2");
    info.record(classify_stderr_line("Some warning"));
    assert!(info.download.is_some());
    info.record(classify_stderr_line("Total size of inbound packages is garbage"));
    assert!(info.download.is_none());
    info.record(classify_stderr_line("After this operation, 3 MiB will be freed (install 1 MiB, remove 4 MiB)."));
    assert!(info.net_disk.as_ref().unwrap().freed);
}

#[test]
fn display_unit_thresholds() {
    assert_eq!(display_unit(0), SizeUnit::B);
    assert_eq!(display_unit(1023), SizeUnit::B);
    assert_eq!(display_unit(1024), SizeUnit::KiB);
    assert_eq!(display_unit((1 << 20) - 1), SizeUnit::KiB);
    assert_eq!(display_unit(1 << 20), SizeUnit::MiB);
    assert_eq!(display_unit(1 << 30), SizeUnit::GiB);
    assert_eq!(display_unit(u64::MAX), SizeUnit::GiB);
}

#[test]
fn title_size_says_what_dnf_reported() {
    let both = {
        let mut info = SizeInfo::new();
        info.record(classify_stderr_line("Total size of inbound packages is 1 B. Need to download 53 MiB."));
        info.record(classify_stderr_line("After this operation, 11 MiB extra will be used (install 275 MiB, remove 264 MiB)."));
        info
    };
    match both.title_size() {
        TitleSize::Both { download, disk } => {
            assert_eq!(download.number, "53");
            assert_eq!(disk.size.number, "11");
            assert!(!disk.freed);
        }
        other => panic!("{other:?}"),
    }
    let mut info = SizeInfo::new();
    info.record(classify_stderr_line("Total size of inbound packages is 1 B. Need to download 2 KiB."));
    assert!(matches!(info.title_size(), TitleSize::Download { .. }));
    let mut info = SizeInfo::new();
    info.record(classify_stderr_line("After this operation, 5 MiB will be freed (install 264 MiB, remove 269 MiB)."));
    assert!(matches!(info.title_size(), TitleSize::Disk { disk } if disk.freed));
    assert!(matches!(SizeInfo::new().title_size(), TitleSize::PackageSum));
}

#[test]
fn last_total_line_wins() {
    let mut info = SizeInfo::new();
    for l in [
        "Total size of inbound packages is 1 B. Need to download 1 KiB.",
        "After this operation, 1 MiB extra will be used (install 2 MiB, remove 1 MiB).",
        "Total size of inbound packages is 9 B. Need to download 7 GiB.",
        "Some warning",
    ] {
        info.record(classify_stderr_line(l));
    }
    assert_eq!(info.download.as_ref().unwrap().number, "7");
    assert_eq!(info.download.as_ref().unwrap().unit, SizeUnit::GiB);
    assert_eq!(info.net_disk.as_ref().unwrap().size.number, "1");
}
