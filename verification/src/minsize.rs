//! The size report: for each minified file one row with the size of the
//! source, of the minified text, and of the minified text after gzip.

use std::io::Write;
use flate2::write::GzEncoder;
use flate2::Compression;
use humansize::{format_size, DECIMAL};
use vstd::prelude::*;
use vstd::string::{StrSliceExecFns, StringExecFns};
use vstd::utf8::encode_utf8;

verus! {

/// The width of a column of the report, in characters.
pub const WIDTH: usize = 10;

/// A file that was minified: its name, the size of its source in bytes, and
/// the minified text.
#[derive(Debug, Clone)]
pub struct MinifiedFile {
    pub file_name: String,
    pub source_size: usize,
    pub minified: String,
}

/// How `humansize` writes a number of bytes with decimal units, as in `1.23 kB`.
pub uninterp spec fn decimal_size(bytes: usize) -> Seq<char>;

/// The bytes that gzip, at its best level, makes of a text.
pub uninterp spec fn gzip(text: Seq<char>) -> Seq<u8>;

/// `humansize::format_size` with the options `DECIMAL`: the result depends
/// on the number alone.
#[verifier::external_body]
fn human_size(bytes: usize) -> (text: String)
    ensures
        text@ == decimal_size(bytes),
{
    format_size(bytes, DECIMAL)
}

/// `flate2::write::GzEncoder` at `Compression::best()`, fed with the whole
/// text and finished: the bytes that come out depend on the text alone. The
/// encoder writes to memory, which does not fail.
#[verifier::external_body]
fn gzip_best(text: &str) -> (bytes: Vec<u8>)
    ensures
        bytes@ == gzip(text@),
{
    let mut encoder = GzEncoder::new(Vec::new(), Compression::best());
    encoder.write_all(text.as_bytes()).unwrap();
    encoder.finish().unwrap()
}

/// `text`, filled up with blanks at its end to `width` characters. A text
/// that is at least that long stays as it is.
pub open spec fn padded(text: Seq<char>, width: nat) -> Seq<char> {
    if text.len() >= width {
        text
    } else {
        text + Seq::new((width - text.len()) as nat, |i: int| ' ')
    }
}

/// The first line of the report.
pub open spec fn header_text() -> Seq<char> {
    padded("Original"@, WIDTH as nat) + " -> "@ + padded("Minified"@, WIDTH as nat) + " -> Gzip\n"@
}

/// One row of the report: the three sizes, each in its column, and the
/// name of the file.
pub open spec fn row_text(
    source: Seq<char>,
    minified: Seq<char>,
    gzipped: Seq<char>,
    file_name: Seq<char>,
) -> Seq<char> {
    padded(source, WIDTH as nat) + " -> "@ + padded(minified, WIDTH as nat) + " -> "@ + padded(
        gzipped,
        WIDTH as nat,
    ) + " "@ + file_name + "\n"@
}

/// The number of bytes that a text takes.
pub open spec fn byte_len(text: Seq<char>) -> usize {
    encode_utf8(text).len() as usize
}

/// The number of bytes that a text takes after gzip.
pub open spec fn gzip_len(text: Seq<char>) -> usize {
    gzip(text).len() as usize
}

/// The row of the report for one file.
pub open spec fn file_row(file: MinifiedFile) -> Seq<char> {
    row_text(
        decimal_size(file.source_size),
        decimal_size(byte_len(file.minified@)),
        decimal_size(gzip_len(file.minified@)),
        file.file_name@,
    )
}

/// The report for `files`: the header, then one row for each file.
pub open spec fn snapshot_text(files: Seq<MinifiedFile>) -> Seq<char>
    decreases files.len(),
{
    if files.len() == 0 {
        header_text()
    } else {
        snapshot_text(files.drop_last()) + file_row(files.last())
    }
}

/// Fills `text` up with blanks at its end to `width` characters.
pub fn pad(text: &str, width: usize) -> (out: String)
    ensures
        out@ == padded(text@, width as nat),
{
    let mut out = String::from_str(text);
    let mut len = text.unicode_len();
    while len < width
        invariant
            text@.len() <= len,
            len <= width || len == text@.len(),
            out@ == text@ + Seq::new((len - text@.len()) as nat, |i: int| ' '),
        decreases width - len,
    {
        out.push(' ');
        len += 1;
    }
    out
}

/// The first line of the report.
pub fn header() -> (out: String)
    ensures
        out@ == header_text(),
{
    let mut out = pad("Original", WIDTH);
    out.append(" -> ");
    out.append(pad("Minified", WIDTH).as_str());
    out.append(" -> Gzip\n");
    out
}

/// One row of the report, from the three sizes as they are to be shown and
/// the name of the file.
pub fn row(source: &str, minified: &str, gzipped: &str, file_name: &str) -> (out: String)
    ensures
        out@ == row_text(source@, minified@, gzipped@, file_name@),
{
    let mut out = pad(source, WIDTH);
    out.append(" -> ");
    out.append(pad(minified, WIDTH).as_str());
    out.append(" -> ");
    out.append(pad(gzipped, WIDTH).as_str());
    out.append(" ");
    out.append(file_name);
    out.append("\n");
    out
}

/// The number of bytes that `text` takes after gzip.
pub fn gzip_size(text: &str) -> (size: usize)
    ensures
        size == gzip_len(text@),
{
    gzip_best(text).len()
}

/// The row of the report for one file.
pub fn measure(file: &MinifiedFile) -> (out: String)
    ensures
        out@ == file_row(*file),
{
    let source = human_size(file.source_size);
    let minified = human_size(file.minified.as_str().len());
    let gzipped = human_size(gzip_size(file.minified.as_str()));
    row(source.as_str(), minified.as_str(), gzipped.as_str(), file.file_name.as_str())
}

/// The report for `files`: the header, then one row for each file.
pub fn snapshot(files: &[MinifiedFile]) -> (out: String)
    ensures
        out@ == snapshot_text(files@),
{
    let mut out = header();
    let mut i: usize = 0;
    proof {
        assert(files@.subrange(0, 0).len() == 0);
    }
    while i < files.len()
        invariant
            i <= files@.len(),
            out@ == snapshot_text(files@.subrange(0, i as int)),
        decreases files@.len() - i,
    {
        proof {
            assert(files@.subrange(0, i + 1).drop_last() == files@.subrange(0, i as int));
            assert(files@.subrange(0, i + 1).last() == files@[i as int]);
        }
        out.append(measure(&files[i]).as_str());
        i += 1;
    }
    proof {
        assert(files@.subrange(0, i as int) == files@);
    }
    out
}

} // verus!
