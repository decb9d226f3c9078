use std::io::Write;

use proxyzms::unpack::{extract_gz, extract_wintun, extract_zip};

fn gz(data: &[u8]) -> Vec<u8> {
    let mut enc = flate2::write::GzEncoder::new(Vec::new(), flate2::Compression::default());
    enc.write_all(data).unwrap();
    enc.finish().unwrap()
}

enum Item<'a> {
    File(&'a str, &'a [u8]),
    Dir(&'a str),
}

fn zip_of(items: &[Item]) -> Vec<u8> {
    let mut w = zip::ZipWriter::new(std::io::Cursor::new(Vec::new()));
    let opts = zip::write::SimpleFileOptions::default();
    for item in items {
        match item {
            Item::File(name, data) => {
                w.start_file(*name, opts).unwrap();
                w.write_all(data).unwrap();
            }
            Item::Dir(name) => w.add_directory(*name, opts).unwrap(),
        }
    }
    w.finish().unwrap().into_inner()
}

#[test]
fn gzip_download_is_decompressed() {
    let packed = gz(b"\x7fELF mihomo");
    assert_ne!(packed, b"\x7fELF mihomo".to_vec());
    assert_eq!(extract_gz(&packed), Ok(b"\x7fELF mihomo".to_vec()));
    assert!(extract_gz(b"not gzip at all").is_err());
}

#[test]
fn zip_download_yields_the_exe() {
    let data = zip_of(&[
        Item::File("README.md", b"readme"),
        Item::Dir("tools.exe"),
        Item::File("mihomo-windows-amd64.EXE", b"MZ binary"),
        Item::File("other.exe", b"MZ other"),
    ]);
    assert_eq!(extract_zip(&data), Ok(b"MZ binary".to_vec()));
}

#[test]
fn single_entry_zip_yields_that_entry() {
    let data = zip_of(&[Item::File("mihomo", b"ELF")]);
    assert_eq!(extract_zip(&data), Ok(b"ELF".to_vec()));
}

#[test]
fn zip_without_executable_is_an_error() {
    let data = zip_of(&[Item::File("a.txt", b"a"), Item::File("b.txt", b"b")]);
    assert_eq!(extract_zip(&data), Err("压缩包中未找到可执行文件".to_string()));
    assert!(extract_zip(b"PK but not a zip").is_err());
}

#[test]
fn wintun_dll_for_the_architecture() {
    let data = zip_of(&[
        Item::Dir("wintun/"),
        Item::File("wintun/bin/x86/wintun.dll", b"x86"),
        Item::File("wintun/bin/amd64/wintun.dll", b"amd64"),
        Item::File("wintun/include/wintun.h", b"h"),
    ]);
    assert_eq!(extract_wintun(&data, "amd64"), Ok(b"amd64".to_vec()));
    assert_eq!(extract_wintun(&data, "x86"), Ok(b"x86".to_vec()));
    assert_eq!(
        extract_wintun(&data, "arm64"),
        Err("wintun.zip 中未找到 bin/arm64/wintun.dll".to_string())
    );
}
