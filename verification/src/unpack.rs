//! Unpacking the downloaded mihomo and wintun archives. Decompression and
//! the zip format are the flate2 and zip crates' work, called from here;
//! which entry is taken, and which error comes out, is decided here.
//! (Writing the result to disk is the application's part.)

use crate::bootstrap::{ends_with, is_binary_entry, is_wintun_entry, lowercase_of, slashed};
use vstd::prelude::*;

verus! {

/// A byte result viewed as plain values.
pub open spec fn bytes_result(r: Result<Vec<u8>, String>) -> Result<Seq<u8>, Seq<char>> {
    match r {
        Ok(v) => Ok(v@),
        Err(e) => Err(e@),
    }
}

/// What `flate2::read::GzDecoder` yields for `data`, read to the end: the
/// decompressed bytes, or the text of the I/O error.
pub uninterp spec fn gunzip_of(data: Seq<u8>) -> Result<Seq<u8>, Seq<char>>;

/// `GzDecoder::new(data)` read to the end (`Read::read_to_end`). The output
/// is a function of the input bytes; what it is takes the gzip and deflate
/// formats to say, so it is named, not spelled out.
#[verifier::external_body]
fn gunzip(data: &[u8]) -> (r: Result<Vec<u8>, String>)
    ensures
        bytes_result(r) == gunzip_of(data@),
{
    let mut out: Vec<u8> = Vec::new();
    match std::io::Read::read_to_end(&mut flate2::read::GzDecoder::new(data), &mut out) {
        Ok(_) => Ok(out),
        Err(e) => Err(e.to_string()),
    }
}

/// What `zip::ZipArchive::new` makes of `data`: the number of entries
/// (`len`), or the text of the error.
pub uninterp spec fn zip_count_of(data: Seq<u8>) -> Result<usize, Seq<char>>;

/// `ZipArchive::new` over the bytes, and its entry count.
#[verifier::external_body]
fn zip_count(data: &[u8]) -> (r: Result<usize, String>)
    ensures
        match r {
            Ok(n) => zip_count_of(data@) == Ok::<usize, Seq<char>>(n),
            Err(e) => zip_count_of(data@) == Err::<usize, Seq<char>>(e@),
        },
{
    match zip::ZipArchive::new(std::io::Cursor::new(data)) {
        Ok(z) => Ok(z.len()),
        Err(e) => Err(e.to_string()),
    }
}

/// What `ZipArchive::by_index(i)` gives on the archive of `data`: whether
/// the entry is a regular file (`is_file`) and its name (`name`, which can
/// fail on its own), or the text of the error.
pub uninterp spec fn zip_entry_of(data: Seq<u8>, i: usize) -> Result<(bool, Result<Seq<char>, Seq<char>>), Seq<char>>;

/// Entry `i` of the archive of `data` (`ZipArchive::by_index`), as plain
/// values: `is_file` and `name`.
#[verifier::external_body]
fn zip_entry(data: &[u8], i: usize) -> (r: Result<(bool, Result<String, String>), String>)
    ensures
        match r {
            Ok((f, n)) => zip_entry_of(data@, i) == Ok::<(bool, Result<Seq<char>, Seq<char>>), Seq<char>>(
                (
                    f,
                    match n {
                        Ok(s) => Ok::<Seq<char>, Seq<char>>(s@),
                        Err(e) => Err::<Seq<char>, Seq<char>>(e@),
                    },
                ),
            ),
            Err(e) => zip_entry_of(data@, i) == Err::<(bool, Result<Seq<char>, Seq<char>>), Seq<char>>(e@),
        },
{
    let mut z = zip::ZipArchive::new(std::io::Cursor::new(data)).map_err(|e| e.to_string())?;
    let entry = z.by_index(i).map_err(|e| e.to_string())?;
    let name = entry.name().map(|n| n.into_owned()).map_err(|e| e.to_string());
    Ok((entry.is_file(), name))
}

/// The decompressed bytes of entry `i` of the archive of `data`, or the
/// text of the error.
pub uninterp spec fn zip_data_of(data: Seq<u8>, i: usize) -> Result<Seq<u8>, Seq<char>>;

/// Entry `i` of the archive of `data` (`ZipArchive::by_index`), read to the
/// end.
#[verifier::external_body]
fn zip_data(data: &[u8], i: usize) -> (r: Result<Vec<u8>, String>)
    ensures
        bytes_result(r) == zip_data_of(data@, i),
{
    let mut z = zip::ZipArchive::new(std::io::Cursor::new(data)).map_err(|e| e.to_string())?;
    let mut entry = z.by_index(i).map_err(|e| e.to_string())?;
    let mut out: Vec<u8> = Vec::new();
    std::io::Read::read_to_end(&mut entry, &mut out).map_err(|e| e.to_string())?;
    Ok(out)
}

/// Which entry of an archive is wanted.
pub enum EntryRule {
    /// The mihomo executable: a `.exe`, or the only entry of an archive of
    /// this many entries.
    Binary(usize),
    /// `wintun.dll` for this architecture directory.
    Wintun(String),
}

/// The rule accepts a file named `name`.
pub open spec fn accepts(rule: EntryRule, name: Seq<char>) -> bool {
    match rule {
        EntryRule::Binary(count) => ends_with(lowercase_of(name), ".exe"@) || count == 1,
        EntryRule::Wintun(arch_dir) => ends_with(slashed(name), "bin/"@ + arch_dir@ + "/wintun.dll"@),
    }
}

fn rule_accepts(rule: &EntryRule, name: &str) -> (b: bool)
    ensures
        b == accepts(*rule, name@),
{
    match rule {
        EntryRule::Binary(count) => is_binary_entry(name, *count),
        EntryRule::Wintun(arch_dir) => is_wintun_entry(name, arch_dir.as_str()),
    }
}

/// Entries `i..count` in order: the bytes of the first regular file whose
/// name `accept` takes; the first error on the way; `missing` when none is
/// found. Entries that are not regular files are passed over.
pub open spec fn pick_entry(
    data: Seq<u8>,
    count: usize,
    i: int,
    accept: spec_fn(Seq<char>) -> bool,
    missing: Seq<char>,
) -> Result<Seq<u8>, Seq<char>>
    decreases count - i,
{
    if i < 0 || i >= count {
        Err(missing)
    } else {
        match zip_entry_of(data, i as usize) {
            Err(e) => Err(e),
            Ok((is_file, name)) => if !is_file {
                pick_entry(data, count, i + 1, accept, missing)
            } else {
                match name {
                    Err(e) => Err(e),
                    Ok(n) => if accept(n) {
                        zip_data_of(data, i as usize)
                    } else {
                        pick_entry(data, count, i + 1, accept, missing)
                    },
                }
            },
        }
    }
}

fn first_entry(data: &[u8], count: usize, rule: &EntryRule, missing: String) -> (r: Result<Vec<u8>, String>)
    ensures
        bytes_result(r) == pick_entry(data@, count, 0, |n: Seq<char>| accepts(*rule, n), missing@),
{
    let mut i: usize = 0;
    while i < count
        invariant
            i <= count,
            pick_entry(data@, count, 0, |n: Seq<char>| accepts(*rule, n), missing@) == pick_entry(
                data@,
                count,
                i as int,
                |n: Seq<char>| accepts(*rule, n),
                missing@,
            ),
        decreases count - i,
    {
        match zip_entry(data, i) {
            Err(e) => {
                return Err(e);
            },
            Ok((is_file, name)) => {
                if is_file {
                    match name {
                        Err(e) => {
                            return Err(e);
                        },
                        Ok(n) => {
                            if rule_accepts(rule, n.as_str()) {
                                return zip_data(data, i);
                            }
                        },
                    }
                }
            },
        }
        i = i + 1;
    }
    Err(missing)
}

/// The mihomo binary out of its gzip download.
pub fn extract_gz(data: &[u8]) -> (r: Result<Vec<u8>, String>)
    ensures
        bytes_result(r) == gunzip_of(data@),
{
    gunzip(data)
}

/// The mihomo executable out of its zip download: the first regular file
/// named `*.exe` (in any case), or the only entry; else an error.
pub fn extract_zip(data: &[u8]) -> (r: Result<Vec<u8>, String>)
    ensures
        bytes_result(r) == match zip_count_of(data@) {
            Err(e) => Err(e),
            Ok(n) => pick_entry(
                data@,
                n,
                0,
                |name: Seq<char>| ends_with(lowercase_of(name), ".exe"@) || n == 1,
                "压缩包中未找到可执行文件"@,
            ),
        },
{
    let count = match zip_count(data) {
        Ok(n) => n,
        Err(e) => {
            return Err(e);
        },
    };
    let rule = EntryRule::Binary(count);
    assert((|n: Seq<char>| accepts(rule, n)) =~= (|name: Seq<char>| ends_with(lowercase_of(name), ".exe"@)
        || count == 1));
    first_entry(data, count, &rule, "压缩包中未找到可执行文件".to_string())
}

/// `wintun.dll` for the architecture directory `arch_dir` out of the wintun
/// zip (laid out as `wintun/bin/<arch>/wintun.dll`).
pub fn extract_wintun(data: &[u8], arch_dir: &str) -> (r: Result<Vec<u8>, String>)
    ensures
        bytes_result(r) == match zip_count_of(data@) {
            Err(e) => Err(e),
            Ok(n) => pick_entry(
                data@,
                n,
                0,
                |name: Seq<char>| ends_with(slashed(name), "bin/"@ + arch_dir@ + "/wintun.dll"@),
                "wintun.zip 中未找到 bin/"@ + arch_dir@ + "/wintun.dll"@,
            ),
        },
{
    let count = match zip_count(data) {
        Ok(n) => n,
        Err(e) => {
            return Err(e);
        },
    };
    let mut missing = crate::text::chars_of("wintun.zip 中未找到 bin/");
    crate::text::append_chars(&mut missing, &crate::text::chars_of(arch_dir));
    crate::text::append_chars(&mut missing, &crate::text::chars_of("/wintun.dll"));
    let rule = EntryRule::Wintun(arch_dir.to_string());
    assert((|n: Seq<char>| accepts(rule, n)) =~= (|name: Seq<char>| ends_with(
        slashed(name),
        "bin/"@ + arch_dir@ + "/wintun.dll"@,
    )));
    first_entry(data, count, &rule, crate::text::string_from(&missing))
}

} // verus!
