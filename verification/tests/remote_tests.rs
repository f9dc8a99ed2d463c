use env_manager::remote::{
    archive_extension, checked_archive_extension, content_total, cut_is_ok_for, extension_cut_is_ok,
    extension_from_lowered, format_of_lowered, download_file, download_file_with_progress, extract_archive,
    ArchiveError, ArchiveFormat, ChunkStep, ContentLength, RemoteResource, ResourceCatalog,
};
use std::path::PathBuf;

fn res(name: &str, url: &str) -> RemoteResource {
    RemoteResource::new(name, url)
}

#[test]
fn remote_resource_fields() {
    let r = res("jdk-21", "https://example.com/jdk-21.zip");
    assert_eq!(r.name, "jdk-21");
    assert_eq!(r.url, "https://example.com/jdk-21.zip");
    let d = r.duplicate();
    assert_eq!(d.name, r.name);
    assert_eq!(d.url, r.url);
}

#[test]
fn catalog_read_after_write() {
    let mut c = ResourceCatalog::new();
    assert!(c.is_empty());
    assert!(c.get("java").is_none());
    c.insert("java".to_string(), vec![res("jdk-21", "u1")]);
    c.insert("go".to_string(), vec![res("go1.22", "u2"), res("go1.21", "u3")]);
    assert!(!c.is_empty());
    assert_eq!(c.get("java").unwrap().len(), 1);
    assert_eq!(c.get("java").unwrap()[0].name, "jdk-21");
    assert_eq!(c.get("go").unwrap()[1].url, "u3");
    assert!(c.get("scala").is_none());
    // a second write for a key replaces the first
    c.insert("java".to_string(), vec![]);
    assert_eq!(c.get("java").unwrap().len(), 0);
    assert_eq!(c.get("go").unwrap().len(), 2);
}

#[test]
fn archive_extension_cases() {
    assert_eq!(archive_extension("https://h/jdk-21.tar.gz"), ".tar.gz");
    assert_eq!(archive_extension("https://h/JDK-21.TAR.GZ"), ".tar.gz");
    assert_eq!(archive_extension("https://h/go.TGZ"), ".tgz");
    assert_eq!(archive_extension("https://h/jdk-21.zip"), ".zip");
    // the ordinary extension keeps the address's own case
    assert_eq!(archive_extension("https://h/JDK.ZIP"), ".ZIP");
    assert_eq!(archive_extension("https://h/a.b/c"), ".b/c");
    assert_eq!(archive_extension("no-dot"), "");
    assert_eq!(archive_extension(""), "");
}

/// The extension as the address-slicing rule computes it, on std's own calls.
fn reference_extension(url: &str) -> String {
    let lower = url.to_lowercase();
    if lower.ends_with(".tar.gz") {
        return ".tar.gz".into();
    }
    if lower.ends_with(".tgz") {
        return ".tgz".into();
    }
    if let Some(dot) = lower.rfind('.') {
        url[dot..].to_string()
    } else {
        String::new()
    }
}

#[test]
fn archive_extension_agrees_with_slicing_rule() {
    let urls = [
        "https://h/jdk-21.tar.gz",
        "https://h/X.TGZ",
        "https://h/Go1.22.Windows-AMD64.ZIP",
        "\u{130}.zip",
        "\u{212a}\u{e9}.zip",
        "Ä/ö.Zip",
        "none",
    ];
    for u in urls {
        assert!(extension_cut_is_ok(u), "{:?}", u);
        assert_eq!(archive_extension(u), reference_extension(u), "{:?}", u);
        assert_eq!(checked_archive_extension(u), Some(reference_extension(u)));
    }
}

#[test]
fn archive_extension_follows_lowered_byte_position() {
    // U+0130 lower-cases to two characters, one byte longer: the cut moves
    // past the dot
    assert_eq!(archive_extension("\u{130}.zip"), "zip");
    // the Kelvin sign lower-cases to one byte: the cut lands on the next character
    assert_eq!(archive_extension("\u{212a}\u{e9}.zip"), "\u{e9}.zip");
}

#[test]
fn archive_extension_refuses_a_cut_inside_a_character() {
    let u = "\u{212a}\u{212a}.zip";
    assert!(!extension_cut_is_ok(u));
    assert_eq!(checked_archive_extension(u), None);
    let r = RemoteResource::new("k", u);
    let dest = PathBuf::from("/d");
    assert!(r.try_download_to(&dest).is_none());
    assert!(r.try_download_to_with_progress(&dest, &dest).is_none());
}

#[test]
fn extract_archive_chooses_format() {
    assert_eq!(extract_archive("/tmp/download/jdk.zip").unwrap(), ArchiveFormat::Zip);
    assert_eq!(extract_archive("/tmp/download/JDK.ZIP").unwrap(), ArchiveFormat::Zip);
    assert_eq!(extract_archive("/tmp/d/go.tar.gz").unwrap(), ArchiveFormat::TarGz);
    assert_eq!(extract_archive("/tmp/d/go.TGZ").unwrap(), ArchiveFormat::TarGz);
}

#[test]
fn stored_archive_is_unpacked_with_the_matching_format() {
    let dest = PathBuf::from("/base/download");
    for (url, format) in [
        ("https://h/JDK-21_WINDOWS.TAR.GZ", ArchiveFormat::TarGz),
        ("https://h/go.Tgz", ArchiveFormat::TarGz),
        ("https://h/scala.Zip", ArchiveFormat::Zip),
    ] {
        let plan = res("sdk", url).download_to(&dest);
        let path = dest.join(&plan.archive_name);
        assert_eq!(extract_archive(&path.to_string_lossy()).unwrap(), format, "{}", url);
    }
}

#[test]
fn extract_archive_refuses_other_names() {
    match extract_archive("/tmp/D/Jdk.7Z") {
        Err(ArchiveError::Unsupported(p)) => {
            assert_eq!(p, "/tmp/d/jdk.7z");
            let e = ArchiveError::Unsupported(p);
            assert_eq!(e.message(), "unsupported archive format: /tmp/d/jdk.7z");
        }
        Ok(_) => panic!("accepted"),
    }
    assert!(extract_archive("/tmp/d/jdk.tar").is_err());
    assert!(extract_archive("").is_err());
}

#[test]
fn download_to_uses_one_directory() {
    let dest = PathBuf::from("/opt/sdk");
    let r = res("jdk-21", "https://h/OpenJDK21.TAR.GZ");
    let plan = r.download_to(&dest);
    let tried = r.try_download_to(&dest).unwrap();
    assert_eq!(tried.archive_name, plan.archive_name);
    assert_eq!(plan.url, "https://h/OpenJDK21.TAR.GZ");
    assert_eq!(plan.download_dir, &dest);
    assert_eq!(plan.extract_dir, &dest);
    assert_eq!(plan.archive_name, "jdk-21.tar.gz");
    assert_eq!(plan.output_name, "jdk-21");
    assert!(!plan.reports_progress);
}

#[test]
fn download_to_with_progress_separates_directories() {
    let dl = PathBuf::from("/base/download");
    let ex = PathBuf::from("/base/java");
    let r = res("jdk-17", "https://h/jdk17.zip");
    let plan = r.download_to_with_progress(&dl, &ex);
    let tried = r.try_download_to_with_progress(&dl, &ex).unwrap();
    assert_eq!(tried.archive_name, plan.archive_name);
    assert!(tried.reports_progress);
    assert_eq!(plan.download_dir, &dl);
    assert_eq!(plan.extract_dir, &ex);
    assert_eq!(plan.archive_name, "jdk-17.zip");
    assert_eq!(plan.output_name, "jdk-17");
    assert!(plan.reports_progress);
}

#[test]
fn content_total_reads_the_header() {
    assert_eq!(content_total(&ContentLength::Absent), 0);
    assert_eq!(content_total(&ContentLength::Unreadable), 0);
    assert_eq!(content_total(&ContentLength::Text("1048576".to_string())), 1048576);
    assert_eq!(content_total(&ContentLength::Text(" 12".to_string())), 0);
    assert_eq!(content_total(&ContentLength::Text("abc".to_string())), 0);
}

#[test]
fn file_download_counts_chunks() {
    let dest = PathBuf::from("/tmp/x.zip");
    let mut d = download_file_with_progress("https://h/x.zip", &dest);
    assert_eq!(d.url, "https://h/x.zip");
    assert_eq!(d.dest, &dest);
    d.on_response(&ContentLength::Text("100".to_string()));
    assert_eq!(d.total, 100);
    assert_eq!(
        d.on_chunk(60),
        ChunkStep::Write { len: 60, report: true, downloaded: 60, total: 100 }
    );
    assert_eq!(
        d.on_chunk(40),
        ChunkStep::Write { len: 40, report: true, downloaded: 100, total: 100 }
    );
    assert_eq!(d.on_chunk(0), ChunkStep::Finished);
    assert!(d.finished);
    assert_eq!(d.downloaded, 100);
}

#[test]
fn file_download_without_progress_reports_nothing() {
    let dest = PathBuf::from("/tmp/y");
    let mut d = download_file("https://h/y", &dest);
    assert!(!d.reports_progress);
    d.on_response(&ContentLength::Absent);
    assert_eq!(
        d.on_chunk(5),
        ChunkStep::Write { len: 5, report: false, downloaded: 5, total: 0 }
    );
    assert_eq!(d.on_chunk(0), ChunkStep::Finished);
}

#[test]
fn extension_from_lowered_text() {
    assert_eq!(extension_from_lowered("https://h/A.TAR.GZ", "https://h/a.tar.gz"), ".tar.gz");
    assert_eq!(extension_from_lowered("https://h/A.TGZ", "https://h/a.tgz"), ".tgz");
    assert_eq!(extension_from_lowered("https://h/A.ZIP", "https://h/a.zip"), ".ZIP");
    assert_eq!(extension_from_lowered("noext", "noext"), "");
    // the cut follows the dot's byte position in the lowered text
    assert_eq!(extension_from_lowered("\u{130}.zip", "i\u{307}.zip"), "zip");
    assert!(cut_is_ok_for("\u{130}.zip", "i\u{307}.zip"));
    assert!(!cut_is_ok_for("\u{212a}\u{212a}.zip", "kk.zip"));
    assert!(cut_is_ok_for("x.tgz", "x.tgz"));
}

#[test]
fn format_of_lowered_text() {
    assert_eq!(format_of_lowered("/d/jdk.zip").unwrap(), ArchiveFormat::Zip);
    assert_eq!(format_of_lowered("/d/go.tar.gz").unwrap(), ArchiveFormat::TarGz);
    assert_eq!(format_of_lowered("/d/go.tgz").unwrap(), ArchiveFormat::TarGz);
    // the text is taken as already lowered
    assert!(format_of_lowered("/d/JDK.ZIP").is_err());
    match format_of_lowered("/d/jdk.rar") {
        Err(ArchiveError::Unsupported(p)) => assert_eq!(p, "/d/jdk.rar"),
        Ok(_) => panic!("accepted"),
    }
}
