//! Law data that arrives zipped: the first XML file of the archive is the
//! document.  The archive is read by `zip`; which entry is taken, and when
//! the answer is refused, is verified here.
use vstd::prelude::*;
use crate::error::ProviderError;
use crate::gian::lists::{ascii_lower, ascii_lower_exec};
use crate::num::{dec, u64_to_chars};
use crate::text::{append_chars, chars_of, opt_view, string_of};

verus! {

/// The number of entries of the ZIP archive `bytes`; `None` where `zip`
/// cannot open it.
pub uninterp spec fn zip_entry_count(bytes: Seq<u8>) -> Option<nat>;

/// Entry `i` of the archive: `None` where `zip` cannot open it; else
/// its path's extension (outer `None` where the path leaves the archive's
/// directory, inner `None` where it has no extension) and its size.
pub uninterp spec fn zip_entry_info(bytes: Seq<u8>, i: nat) -> Option<(Option<Option<Seq<char>>>, u64)>;

/// The content of entry `i`; `None` where it cannot be read.
pub uninterp spec fn zip_entry_data(bytes: Seq<u8>, i: nat) -> Option<Seq<u8>>;

/// `zip::ZipArchive::new` on `bytes`, and the archive's `len()`.
#[verifier::external_body]
fn zip_count(bytes: &[u8]) -> (r: Option<usize>)
    ensures
        match r {
            Some(n) => zip_entry_count(bytes@) == Some(n as nat),
            None => zip_entry_count(bytes@) is None,
        },
{
    zip::ZipArchive::new(std::io::Cursor::new(bytes)).ok().map(|z| z.len())
}

pub open spec fn ext_view(e: Option<Option<String>>) -> Option<Option<Seq<char>>> {
    match e {
        Some(Some(x)) => Some(Some(x@)),
        Some(None) => Some(None),
        None => None,
    }
}

/// `by_index(i)` of the archive: the extension of its `enclosed_name()`
/// (lossily as text) and its `size()`.
#[verifier::external_body]
fn zip_entry(bytes: &[u8], i: usize) -> (r: Option<(Option<Option<String>>, u64)>)
    ensures
        match r {
            Some((e, n)) => zip_entry_info(bytes@, i as nat) == Some((ext_view(e), n)),
            None => zip_entry_info(bytes@, i as nat) is None,
        },
{
    let mut z = zip::ZipArchive::new(std::io::Cursor::new(bytes)).ok()?;
    let e = z.by_index(i).ok()?;
    let ext = e.enclosed_name().map(|p| p.extension().map(|x| x.to_string_lossy().into_owned()));
    Some((ext, e.size()))
}

/// The content of entry `i`, read to its end.
#[verifier::external_body]
fn zip_read(bytes: &[u8], i: usize) -> (r: Option<Vec<u8>>)
    ensures
        match r {
            Some(d) => zip_entry_data(bytes@, i as nat) == Some(d@),
            None => zip_entry_data(bytes@, i as nat) is None,
        },
{
    let mut z = zip::ZipArchive::new(std::io::Cursor::new(bytes)).ok()?;
    let mut e = z.by_index(i).ok()?;
    let mut out = Vec::new();
    std::io::Read::read_to_end(&mut e, &mut out).ok()?;
    Some(out)
}

/// The largest XML entry taken from an archive.
pub const MAX_XML_ENTRY: u64 = 52428800;

/// The answer begins as a ZIP archive does (`PK\x03\x04`).
pub open spec fn zipped(bytes: Seq<u8>) -> bool {
    bytes.len() >= 4 && bytes[0] == 0x50u8 && bytes[1] == 0x4bu8 && bytes[2] == 0x03u8 && bytes[3] == 0x04u8
}

/// Looking through the entries from `i` on: the first entry that decides
/// the outcome does so.
pub open spec fn unzip_from(bytes: Seq<u8>, n: nat, i: nat) -> Result<Seq<u8>, Seq<char>>
    decreases n - i,
{
    if i >= n {
        Err("zip contained no .xml entry"@)
    } else {
        match zip_entry_info(bytes, i) {
            None => Err("zip entry"@),
            Some((None, _)) => Err("unsafe zip entry path"@),
            Some((Some(ext), size)) => if ext is Some && ascii_lower(ext.unwrap()) == "xml"@ {
                if size > MAX_XML_ENTRY {
                    Err("zip entry too large: "@ + dec(size as nat) + " bytes"@)
                } else {
                    match zip_entry_data(bytes, i) {
                        Some(d) => Ok(d),
                        None => Err("read zip entry"@),
                    }
                }
            } else {
                unzip_from(bytes, n, i + 1)
            },
        }
    }
}

/// What an answer of the law API gives: the answer itself where it is not
/// zipped, else the first XML entry, or the message of the failure.
pub open spec fn unzip_spec(bytes: Seq<u8>) -> Result<Seq<u8>, Seq<char>> {
    if !zipped(bytes) {
        Ok(bytes)
    } else {
        match zip_entry_count(bytes) {
            None => Err("open zip"@),
            Some(n) => unzip_from(bytes, n, 0),
        }
    }
}

/// Returns the answer as is where it is not a ZIP archive; else the first
/// entry whose name ends in `.xml` (any letter case), refusing an archive
/// that cannot be read, an entry whose path leaves the archive, an XML
/// entry over 50 MiB, and an archive without XML.
pub fn maybe_unzip_xml(bytes: Vec<u8>) -> (r: Result<Vec<u8>, ProviderError>)
    ensures
        match (r, unzip_spec(bytes@)) {
            (Ok(v), Ok(s)) => v@ == s,
            (Err(e), Err(m)) => e matches ProviderError::Source(msg) && msg@ == m,
            _ => false,
        },
{
    if !(bytes.len() >= 4 && bytes[0] == 0x50u8 && bytes[1] == 0x4bu8 && bytes[2] == 0x03u8 && bytes[3] == 0x04u8) {
        return Ok(bytes);
    }
    let n = match zip_count(&bytes) {
        Some(n) => n,
        None => {
            return Err(ProviderError::Source("open zip".to_owned()));
        },
    };
    let xml = chars_of("xml");
    let mut i: usize = 0;
    while i < n
        invariant
            i <= n,
            xml@ == "xml"@,
            zipped(bytes@),
            zip_entry_count(bytes@) == Some(n as nat),
            unzip_spec(bytes@) == unzip_from(bytes@, n as nat, i as nat),
        decreases n - i,
    {
        match zip_entry(&bytes, i) {
            None => {
                return Err(ProviderError::Source("zip entry".to_owned()));
            },
            Some((None, _)) => {
                return Err(ProviderError::Source("unsafe zip entry path".to_owned()));
            },
            Some((Some(ext), size)) => {
                let is_xml = match &ext {
                    Some(x) => crate::text::chars_eq(&ascii_lower_exec(&chars_of(x.as_str())), &xml),
                    None => false,
                };
                if is_xml {
                    if size > MAX_XML_ENTRY {
                        let mut m = chars_of("zip entry too large: ");
                        append_chars(&mut m, &u64_to_chars(size));
                        append_chars(&mut m, &chars_of(" bytes"));
                        return Err(ProviderError::Source(string_of(&m)));
                    }
                    return match zip_read(&bytes, i) {
                        Some(d) => Ok(d),
                        None => Err(ProviderError::Source("read zip entry".to_owned())),
                    };
                }
            },
        }
        i = i + 1;
    }
    Err(ProviderError::Source("zip contained no .xml entry".to_owned()))
}

} // verus!
