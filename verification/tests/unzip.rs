use sta::unzip::{entries, extract, read_entry, safe_path, Extraction, Step, CENTRAL_SIGNATURE, DEFLATED, EOCD_SIGNATURE, LOCAL_SIGNATURE, STORED};
use std::io::Write;

/// Builds a ZIP in memory: `(name, contents, deflate)`.
fn zip(files: &[(&str, &[u8], bool)]) -> Vec<u8> {
    let mut out: Vec<u8> = Vec::new();
    let mut central: Vec<u8> = Vec::new();
    for (name, data, deflate) in files {
        let offset = out.len() as u32;
        let mut crc = flate2::Crc::new();
        crc.update(data);
        let (method, payload) = if *deflate {
            let mut encoder = flate2::write::DeflateEncoder::new(Vec::new(), flate2::Compression::fast());
            encoder.write_all(data).unwrap();
            (DEFLATED, encoder.finish().unwrap())
        } else {
            (STORED, data.to_vec())
        };
        let header = |signature: u32, extra_fields: &[u8]| {
            let mut h = signature.to_le_bytes().to_vec();
            h.extend_from_slice(extra_fields);
            h
        };
        // Local header.
        let mut local = header(LOCAL_SIGNATURE, &[]);
        local.extend_from_slice(&20u16.to_le_bytes()); // version needed
        local.extend_from_slice(&0u16.to_le_bytes()); // flags
        local.extend_from_slice(&method.to_le_bytes());
        local.extend_from_slice(&[0; 4]); // time, date
        local.extend_from_slice(&crc.sum().to_le_bytes());
        local.extend_from_slice(&(payload.len() as u32).to_le_bytes());
        local.extend_from_slice(&(data.len() as u32).to_le_bytes());
        local.extend_from_slice(&(name.len() as u16).to_le_bytes());
        local.extend_from_slice(&0u16.to_le_bytes()); // extra
        local.extend_from_slice(name.as_bytes());
        out.extend_from_slice(&local);
        out.extend_from_slice(&payload);
        // Central directory entry.
        let mut c = header(CENTRAL_SIGNATURE, &[]);
        c.extend_from_slice(&20u16.to_le_bytes()); // version made by
        c.extend_from_slice(&20u16.to_le_bytes()); // version needed
        c.extend_from_slice(&0u16.to_le_bytes()); // flags
        c.extend_from_slice(&method.to_le_bytes());
        c.extend_from_slice(&[0; 4]); // time, date
        c.extend_from_slice(&crc.sum().to_le_bytes());
        c.extend_from_slice(&(payload.len() as u32).to_le_bytes());
        c.extend_from_slice(&(data.len() as u32).to_le_bytes());
        c.extend_from_slice(&(name.len() as u16).to_le_bytes());
        c.extend_from_slice(&[0; 6]); // extra len, comment len, disk number
        c.extend_from_slice(&[0; 6]); // internal (2) and external (4) attributes
        c.extend_from_slice(&offset.to_le_bytes());
        c.extend_from_slice(name.as_bytes());
        central.extend_from_slice(&c);
    }
    let directory_at = out.len() as u32;
    out.extend_from_slice(&central);
    out.extend_from_slice(&EOCD_SIGNATURE.to_le_bytes());
    out.extend_from_slice(&[0; 4]); // disks
    out.extend_from_slice(&(files.len() as u16).to_le_bytes());
    out.extend_from_slice(&(files.len() as u16).to_le_bytes());
    out.extend_from_slice(&(central.len() as u32).to_le_bytes());
    out.extend_from_slice(&directory_at.to_le_bytes());
    out.extend_from_slice(&0u16.to_le_bytes()); // comment length
    out
}

/// The files that unpacking writes, and the names of their folders.
fn files(unpacked: &Extraction) -> Vec<(String, Vec<u8>)> {
    let mut out = Vec::new();
    for step in &unpacked.steps {
        if let Step::File(path, data) = step {
            out.push((path.join("/"), data.clone()));
        }
    }
    out
}

#[test]
fn reads_stored_and_deflated_entries() {
    let big = "sta ".repeat(5000);
    let archive = zip(&[("sta.exe", b"MZ fake", false), ("locales/en-US.pak", big.as_bytes(), true)]);
    let list = entries(&archive).expect("entries");
    assert_eq!(list.iter().map(|e| e.name.as_str()).collect::<Vec<_>>(), ["sta.exe", "locales/en-US.pak"]);
    assert_eq!(list[1].method, DEFLATED);
    assert!(list[1].compressed_size < list[1].size, "the deflated entry is smaller than its contents");

    let unpacked = extract(&archive);
    assert_eq!(unpacked.error, None);
    let written = files(&unpacked);
    assert_eq!(written.len(), 2);
    assert_eq!(written[0], ("sta.exe".to_string(), b"MZ fake".to_vec()));
    assert_eq!(written[1].0, "locales/en-US.pak");
    assert_eq!(String::from_utf8(written[1].1.clone()).unwrap(), big);
}

#[test]
fn nothing_is_written_outside_the_destination() {
    for name in ["../escaped.txt", "..\\escaped.txt", "a/../../escaped.txt", "/etc/passwd", "C:\\Windows\\x.dll"] {
        let archive = zip(&[(name, b"no", false)]);
        let unpacked = extract(&archive);
        let err = unpacked.error.clone().expect(name);
        assert!(err.contains("outside the update"), "{name}: {err}");
        assert_eq!(files(&unpacked).len(), 0);
    }
    // …and a path that only looks dangerous is fine.
    let archive = zip(&[("ui/..safe/x.txt", b"yes", false)]);
    let unpacked = extract(&archive);
    assert_eq!(unpacked.error, None);
    assert_eq!(files(&unpacked), vec![("ui/..safe/x.txt".to_string(), b"yes".to_vec())]);
}

#[test]
fn a_damaged_or_unsupported_archive_is_refused() {
    assert!(entries(b"not a zip at all").is_err());
    // A flipped byte in the payload fails the checksum rather than being written.
    let mut archive = zip(&[("sta.exe", b"MZ fake", false)]);
    let at = archive.iter().position(|&b| b == b'f').expect("payload");
    archive[at] = b'F';
    let err = extract(&archive).error.expect("checksum");
    assert!(err.contains("checksum"), "{err}");
    // An entry whose method we do not implement is refused, not guessed at.
    let mut archive = zip(&[("sta.exe", b"MZ fake", false)]);
    let list = entries(&archive).unwrap();
    let central_method_at = archive.len() - 22 - 46 - list[0].name.len() + 10;
    archive[central_method_at] = 99;
    let err = extract(&archive).error.expect("method");
    assert!(err.contains("not supported"), "{err}");
}

#[test]
fn folders_come_before_what_is_in_them() {
    let archive = zip(&[("ui/", b"", false), ("ui/a.js", b"a", true)]);
    let unpacked = extract(&archive);
    assert_eq!(unpacked.error, None);
    assert!(matches!(&unpacked.steps[0], Step::Folder(path) if path == &vec!["ui".to_string()]));
    assert_eq!(files(&unpacked), vec![("ui/a.js".to_string(), b"a".to_vec())]);
}

#[test]
fn safe_paths_are_taken_apart() {
    assert_eq!(safe_path("a/b\\c.txt"), Some(vec!["a".to_string(), "b".to_string(), "c.txt".to_string()]));
    assert_eq!(safe_path("./a//b"), Some(vec!["a".to_string(), "b".to_string()]));
    assert_eq!(safe_path("../a"), None);
    assert_eq!(safe_path("C:c"), None);
    assert_eq!(safe_path("./."), None, "the destination itself");
}

#[test]
fn an_entry_is_read_by_its_own_header() {
    let archive = zip(&[("one", b"first", true), ("two", b"second", false)]);
    let list = entries(&archive).unwrap();
    assert_eq!(read_entry(&archive, &list[0]).unwrap(), b"first");
    assert_eq!(read_entry(&archive, &list[1]).unwrap(), b"second");
    // An archive that was cut off in the middle of an entry.
    assert!(read_entry(&archive[..20], &list[1]).is_err());
}

#[test]
fn folders_are_created_and_not_listed() {
    let archive = zip(&[("locales/", b"", false), ("locales/en-US.pak", b"x", false), ("back\\", b"", false)]);
    let list = entries(&archive).unwrap();
    assert_eq!(list.iter().map(|e| e.name.as_str()).collect::<Vec<_>>(), ["locales/en-US.pak"]);
    let unpacked = extract(&archive);
    assert_eq!((unpacked.steps.len(), unpacked.error.is_none()), (3, true));
    assert!(matches!(&unpacked.steps[0], Step::Folder(path) if path.join("/") == "locales"));
}

#[test]
fn a_drive_letter_is_refused_anywhere() {
    for name in ["a/C:x", "a\\z:", "./d:/x", "1:x"] {
        assert_eq!(safe_path(name), None, "{name}");
    }
    assert_eq!(safe_path("a/b:c:d"), None);
    assert_eq!(safe_path("a/bc:d"), Some(vec!["a".to_string(), "bc:d".to_string()]));
}
