//! The listing reply: each catalog entry mapped to a served URL with its
//! size and name, and the report a rescan answers with.

use vstd::prelude::*;
use vstd::string::*;

use crate::switch::{SwitchFile, SwitchService};

verus! {

/// What percent-encoding with the non-alphanumeric set makes of a
/// string.
pub uninterp spec fn pct_of(s: Seq<char>) -> Seq<char>;

/// Relies on percent_encoding::utf8_percent_encode with
/// NON_ALPHANUMERIC: the encoding is a function of the input characters
/// alone.
#[verifier::external_body]
fn percent_encode_str(s: &str) -> (r: String)
    ensures
        r@ == pct_of(s@),
{
    percent_encoding::utf8_percent_encode(s, percent_encoding::NON_ALPHANUMERIC).to_string()
}

/// One file entry of the listing reply.
pub struct FileOut {
    /// URL the file is served under.
    pub url: String,
    /// Byte length from the catalog.
    pub size: u64,
    /// The file's base name.
    pub name: String,
}

/// The listing reply: the files, an always-empty directory list, a
/// greeting carrying the file count, and no referrer.
pub struct IndexOut {
    /// One entry per catalog file.
    pub files: Vec<FileOut>,
    /// Always empty: the index exposes a flat file list.
    pub directories: Vec<String>,
    /// The greeting, carrying the number of served files.
    pub success: Option<String>,
    /// Never set.
    pub referrer: Option<String>,
}

/// Catalog sizes observed immediately before and after a rescan.
pub struct ScanReport {
    /// Entries before the swap.
    pub before: usize,
    /// Entries after the swap.
    pub after: usize,
}

/// The URL one catalog entry is served under: the encoded relative path
/// as the query parameter, the encoded name as a display fragment.
pub open spec fn file_url(f: SwitchFile) -> Seq<char> {
    "/file?path="@ + pct_of(f.rel_path@) + seq!['#'] + pct_of(f.name@)
}

/// The decimal digits of `n`, most significant first.
pub open spec fn dec_digits(n: nat) -> Seq<char>
    decreases n,
{
    if n < 10 {
        seq![digit_char(n)]
    } else {
        dec_digits(n / 10).push(digit_char(n % 10))
    }
}

/// The character for one decimal digit.
pub open spec fn digit_char(d: nat) -> char {
    if d == 0 {
        '0'
    } else if d == 1 {
        '1'
    } else if d == 2 {
        '2'
    } else if d == 3 {
        '3'
    } else if d == 4 {
        '4'
    } else if d == 5 {
        '5'
    } else if d == 6 {
        '6'
    } else if d == 7 {
        '7'
    } else if d == 8 {
        '8'
    } else {
        '9'
    }
}

/// The greeting of a listing over `n` files.
pub open spec fn index_success_message(n: nat) -> Seq<char> {
    "Welcome. Now serving "@ + dec_digits(n) + " files"@
}

/// One decimal digit as a string.
fn digit_str(d: usize) -> (r: &'static str)
    requires
        d < 10,
    ensures
        r@ == seq![digit_char(d as nat)],
{
    proof {
        reveal_strlit("0");
        reveal_strlit("1");
        reveal_strlit("2");
        reveal_strlit("3");
        reveal_strlit("4");
        reveal_strlit("5");
        reveal_strlit("6");
        reveal_strlit("7");
        reveal_strlit("8");
        reveal_strlit("9");
    }
    if d == 0 {
        "0"
    } else if d == 1 {
        "1"
    } else if d == 2 {
        "2"
    } else if d == 3 {
        "3"
    } else if d == 4 {
        "4"
    } else if d == 5 {
        "5"
    } else if d == 6 {
        "6"
    } else if d == 7 {
        "7"
    } else if d == 8 {
        "8"
    } else {
        "9"
    }
}

/// Writes `n` in decimal.
pub fn format_count(n: usize) -> (r: String)
    ensures
        r@ == dec_digits(n as nat),
    decreases n,
{
    if n < 10 {
        digit_str(n).to_owned()
    } else {
        let mut s = format_count(n / 10);
        s.append(digit_str(n % 10));
        proof {
            assert(s@ =~= dec_digits(n as nat));
        }
        s
    }
}

/// Maps one catalog entry to its listing entry: the served URL, the
/// recorded size, the base name.
pub fn file_out(f: &SwitchFile) -> (r: FileOut)
    ensures
        r.url@ == file_url(*f),
        r.size == f.size,
        r.name@ == f.name@,
{
    let mut url = String::from_str("/file?path=");
    let encoded_path = percent_encode_str(f.rel_path.as_str());
    url.append(encoded_path.as_str());
    url.append("#");
    let encoded_name = percent_encode_str(f.name.as_str());
    url.append(encoded_name.as_str());
    proof {
        reveal_strlit("#");
        assert(url@ =~= file_url(*f));
    }
    FileOut { url, size: f.size, name: f.name.clone() }
}

/// Builds the listing reply over a catalog snapshot: one entry per file,
/// an empty directory list, the greeting with the exact file count, and
/// no referrer.
pub fn index_out(files: &Vec<SwitchFile>) -> (r: IndexOut)
    ensures
        r.files@.len() == files@.len(),
        forall|i: int|
            0 <= i < files@.len() ==> {
                let fo = #[trigger] r.files@[i];
                &&& fo.url@ == file_url(files@[i])
                &&& fo.size == files@[i].size
                &&& fo.name@ == files@[i].name@
            },
        r.directories@.len() == 0,
        r.success matches Some(m) && m@ == index_success_message(files@.len() as nat),
        r.referrer is None,
{
    let mut out: Vec<FileOut> = Vec::new();
    let mut j: usize = 0;
    while j < files.len()
        invariant
            0 <= j <= files@.len(),
            out@.len() == j,
            forall|i: int|
                0 <= i < j ==> {
                    let fo = #[trigger] out@[i];
                    &&& fo.url@ == file_url(files@[i])
                    &&& fo.size == files@[i].size
                    &&& fo.name@ == files@[i].name@
                },
        decreases files@.len() - j,
    {
        out.push(file_out(&files[j]));
        j = j + 1;
    }
    let mut message = String::from_str("Welcome. Now serving ");
    let count = format_count(files.len());
    message.append(count.as_str());
    message.append(" files");
    proof {
        assert(message@ =~= index_success_message(files@.len() as nat));
    }
    IndexOut {
        files: out,
        directories: Vec::new(),
        success: Some(message),
        referrer: None,
    }
}

/// The full listing request: a snapshot of the catalog mapped to the
/// reply. Every entry of the reply comes from a well-formed catalog
/// entry of one complete scan.
pub fn index_reply(service: &SwitchService) -> (r: IndexOut)
    ensures
        r.directories@.len() == 0,
        r.success matches Some(m) && m@ == index_success_message(r.files@.len() as nat),
        r.referrer is None,
{
    let files = service.list_files();
    index_out(&files)
}

/// Runs a rescan and reports the catalog sizes observed immediately
/// before and after the swap.
pub fn rescan_report(service: &SwitchService) -> ScanReport {
    let before = service.catalog_len();
    service.scan();
    let after = service.catalog_len();
    ScanReport { before, after }
}

} // verus!
