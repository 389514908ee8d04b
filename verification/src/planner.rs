//! The first steps of planning a request: choosing the files that the
//! request's pattern selects, asking the archive where they live, and reading
//! its answer.

use crate::model::{HpssFile, HpssFileView};
use crate::text::{
    append, chars_of, decimal_value, parse_decimal, same_text, split, split_on, texts,
};
use vstd::prelude::*;

verus! {

/// Why a request could not be planned.
#[derive(Clone, Copy, Debug, PartialEq, Eq, Structural)]
pub enum PlanError {
    /// the request's pattern is no glob that can be compiled
    InvalidPattern,
    /// line `line` of the archive's answer describes a file with a number
    /// that cannot be read
    MalformedMetadata { line: usize },
    /// tape group `group` holds no file
    EmptyGroup { group: usize },
    /// the sizes of the files of tape group `group` do not add up in 64 bits
    SizeOverflow { group: usize },
    /// the path of file `file` of tape group `group` names no file
    MissingFileName { group: usize, file: usize },
}

/// `GlobSet` of the `globset` crate: a set of compiled globs. Nothing of
/// its inside is known here.
#[verifier::external_type_specification]
#[verifier::external_body]
pub struct ExGlobSet(globset::GlobSet);

/// `Error` of the `globset` crate: why a glob could not be compiled.
/// Nothing of its inside is known here.
#[verifier::external_type_specification]
#[verifier::external_body]
pub struct ExGlobError(globset::Error);

/// Whether a pattern is a glob from which a matcher can be built.
pub uninterp spec fn glob_compiles(pattern: Seq<char>) -> bool;

/// The patterns that a glob set was built from.
pub uninterp spec fn glob_set_patterns(set: globset::GlobSet) -> Seq<Seq<char>>;

/// Whether the glob `pattern` matches `path`.
pub uninterp spec fn glob_matches(pattern: Seq<char>, path: Seq<char>) -> bool;

/// `Glob::new` of the `globset` crate, with default options, and
/// `GlobSetBuilder::build` on a builder that holds that one glob. Whether
/// both succeed depends on the pattern alone; the set that comes back was
/// built from the pattern and from nothing else.
#[verifier::external_body]
fn compile_glob_set(pattern: &str) -> (built: Result<globset::GlobSet, globset::Error>)
    ensures
        built is Ok <==> glob_compiles(pattern@),
        built matches Ok(set) ==> glob_set_patterns(set) == seq![pattern@],
{
    let glob = globset::Glob::new(pattern)?;
    globset::GlobSetBuilder::new().add(glob).build()
}

/// `GlobSet::is_match` of the `globset` crate: whether any glob of the set
/// matches the path. Of a set built from a single pattern this is whether
/// that pattern matches.
#[verifier::external_body]
fn glob_set_is_match(set: &globset::GlobSet, path: &str) -> (hit: bool)
    ensures
        glob_set_patterns(*set).len() == 1 ==> hit == glob_matches(
            glob_set_patterns(*set)[0],
            path@,
        ),
{
    set.is_match(path)
}

/// The paths that the request's pattern selects, in their order. A pattern
/// that cannot be compiled selects nothing and is an error.
pub fn filter_request_files(
    paths: Vec<String>,
    pattern: &str,
) -> (selected: Result<Vec<String>, PlanError>)
    ensures
        selected is Ok <==> glob_compiles(pattern@),
        selected matches Ok(kept) ==> texts(kept@) == texts(paths@).filter(
            |path: Seq<char>| glob_matches(pattern@, path),
        ),
        selected matches Err(e) ==> e == PlanError::InvalidPattern,
{
    let set = match compile_glob_set(pattern) {
        Ok(set) => set,
        Err(_) => {
            return Err(PlanError::InvalidPattern);
        },
    };
    let ghost keep = |path: Seq<char>| glob_matches(pattern@, path);
    let mut kept: Vec<String> = Vec::new();
    let mut i: usize = 0;
    proof {
        assert(texts(paths@.take(0)) =~= Seq::empty());
        reveal_with_fuel(Seq::filter, 1);
    }
    while i < paths.len()
        invariant
            0 <= i <= paths.len(),
            glob_set_patterns(set) == seq![pattern@],
            keep == |path: Seq<char>| glob_matches(pattern@, path),
            texts(kept@) == texts(paths@.take(i as int)).filter(keep),
        decreases paths.len() - i,
    {
        let hit = glob_set_is_match(&set, paths[i].as_str());
        proof {
            let before = texts(paths@.take(i as int));
            let upto = texts(paths@.take(i + 1));
            assert(upto.drop_last() =~= before);
            assert(upto.last() == paths@[i as int]@);
            reveal_with_fuel(Seq::filter, 1);
            assert(glob_set_patterns(set)[0] == pattern@);
            assert(hit == keep(paths@[i as int]@));
        }
        if hit {
            let path = paths[i].clone();
            assert(texts(kept@.push(path)) =~= texts(kept@).push(path@));
            kept.push(path);
        }
        i += 1;
    }
    assert(paths@.take(paths@.len() as int) =~= paths@);
    Ok(kept)
}

/// The command that asks the archive where `path` lives.
pub open spec fn metadata_query(path: Seq<char>) -> Seq<char> {
    "ls -NP "@ + path
}

/// The batch of commands that asks the archive where each of the selected
/// files lives: one line for each path, in order.
pub fn metadata_batch(paths: &Vec<String>) -> (batch: Vec<String>)
    ensures
        texts(batch@) == texts(paths@).map_values(|path: Seq<char>| metadata_query(path)),
{
    let mut batch: Vec<String> = Vec::new();
    let mut i: usize = 0;
    while i < paths.len()
        invariant
            0 <= i <= paths.len(),
            batch@.len() == i,
            forall|k: int| 0 <= k < i ==> (#[trigger] batch@[k])@ == metadata_query(paths@[k]@),
        decreases paths.len() - i,
    {
        let line = append("ls -NP ", paths[i].as_str());
        batch.push(line);
        i += 1;
    }
    assert(texts(batch@) =~= texts(paths@).map_values(|path: Seq<char>| metadata_query(path)));
    batch
}

/// How many tab-separated fields a line that describes a file holds.
pub const NUM_HSI_METADATA_FIELDS: usize = 13;

/// The tab-separated fields of a line of the archive's answer.
pub open spec fn fields_of(line: Seq<char>) -> Seq<Seq<char>> {
    split(line, '\t')
}

/// Whether a line describes a file: its first field is the word `FILE`. Any
/// other line echoes a command.
pub open spec fn is_file_line(line: Seq<char>) -> bool {
    fields_of(line)[0] == "FILE"@
}

/// Whether a line that describes a file is complete: it holds exactly 13
/// fields.
pub open spec fn is_complete(line: Seq<char>) -> bool {
    fields_of(line).len() == NUM_HSI_METADATA_FIELDS
}

/// The label under which a file is grouped: the tape field as it stands, or
/// `"0"` where the field holds fewer than 3 characters.
pub open spec fn tape_label(field: Seq<char>) -> Seq<char> {
    if field.len() < 3 {
        "0"@
    } else {
        field
    }
}

/// The tape mark and the offset that a position field gives: the numbers
/// before and after its first plus sign, or `(0, 0)` where it holds none.
/// Where one of the two numbers cannot be read the field gives nothing.
pub open spec fn tape_position(field: Seq<char>) -> Option<(u64, u64)> {
    if field.contains('+') {
        let parts = split(field, '+');
        match (decimal_value(parts[0]), decimal_value(parts[1])) {
            (Some(num), Some(offset)) => Some((num, offset)),
            _ => None,
        }
    } else {
        Some((0, 0))
    }
}

/// The file that a complete line describes: field 1 is its path, field 2 its
/// size, field 4 its position on the tape and field 5 the tape's label.
/// Where the size or the position cannot be read the line gives nothing.
pub open spec fn described_file(line: Seq<char>) -> Option<HpssFileView> {
    let fields = fields_of(line);
    match (decimal_value(fields[2]), tape_position(fields[4])) {
        (Some(size), Some((tape_num, tape_offset))) => Some(
            HpssFileView {
                hpss_path: fields[1],
                size,
                tape: tape_label(fields[5]),
                tape_num,
                tape_offset,
            },
        ),
        _ => None,
    }
}

/// What one line of the archive's answer holds.
#[derive(Debug, PartialEq, Eq)]
pub enum MetadataLine {
    /// the echo of a command; it is passed over
    Echo,
    /// a line that describes a file in more or fewer than 13 fields; it is
    /// passed over, and the file with it
    Incomplete,
    /// a complete line with a number that cannot be read
    Malformed,
    /// a complete line and the file it describes
    File(HpssFile),
}

/// Whether a line is complete and holds a number that cannot be read.
pub open spec fn is_malformed(line: Seq<char>) -> bool {
    is_file_line(line) && is_complete(line) && described_file(line) is None
}

/// Whether a line gives a file.
pub open spec fn gives_file(line: Seq<char>) -> bool {
    is_file_line(line) && is_complete(line) && described_file(line) is Some
}

/// Reads the position field of a line.
fn parse_tape_position(field: &str) -> (r: Option<(u64, u64)>)
    ensures
        r == tape_position(field@),
{
    let parts = split_on(field, '+');
    proof {
        crate::text::lemma_first_index(field@, '+');
        assert(texts(parts@).len() == parts@.len());
        if field@.contains('+') {
            let k = choose|k: int| 0 <= k < field@.len() && field@[k] == '+';
            let first = crate::text::first_index(field@, '+');
            assert(first < field@.len());
            crate::text::lemma_split_join(field@.skip(first + 1), '+');
            assert(split(field@, '+').len() >= 2);
        } else {
            assert(split(field@, '+') =~= seq![field@]);
        }
    }
    if parts.len() < 2 {
        return Some((0, 0));
    }
    proof {
        if !field@.contains('+') {
            assert(false);
        }
        assert(texts(parts@)[0] == parts@[0]@);
        assert(texts(parts@)[1] == parts@[1]@);
    }
    let num = parse_decimal(parts[0].as_str());
    let offset = parse_decimal(parts[1].as_str());
    match (num, offset) {
        (Some(n), Some(o)) => Some((n, o)),
        _ => None,
    }
}

/// Reads one line of the archive's answer.
pub fn parse_metadata_line(line: &str) -> (r: MetadataLine)
    ensures
        r is Echo <==> !is_file_line(line@),
        r is Incomplete <==> is_file_line(line@) && !is_complete(line@),
        r is Malformed <==> is_malformed(line@),
        r matches MetadataLine::File(file) ==> described_file(line@) == Some(file@),
{
    let fields = split_on(line, '\t');
    proof {
        crate::text::lemma_split_join(line@, '\t');
        assert(texts(fields@).len() == fields@.len());
        assert(texts(fields@)[0] == fields@[0]@);
    }
    if !same_text(fields[0].as_str(), "FILE") {
        return MetadataLine::Echo;
    }
    if fields.len() != NUM_HSI_METADATA_FIELDS {
        return MetadataLine::Incomplete;
    }
    proof {
        assert(texts(fields@)[1] == fields@[1]@);
        assert(texts(fields@)[2] == fields@[2]@);
        assert(texts(fields@)[4] == fields@[4]@);
        assert(texts(fields@)[5] == fields@[5]@);
    }
    let label = chars_of(fields[5].as_str());
    let tape = if label.len() < 3 {
        String::from_str("0")
    } else {
        fields[5].clone()
    };
    let size = parse_decimal(fields[2].as_str());
    let position = parse_tape_position(fields[4].as_str());
    match (size, position) {
        (Some(size), Some((tape_num, tape_offset))) => MetadataLine::File(
            HpssFile { hpss_path: fields[1].clone(), size, tape, tape_num, tape_offset },
        ),
        _ => MetadataLine::Malformed,
    }
}

/// Whether a label names more than one tape: a file that spans cartridges
/// is listed under their labels with commas between.
pub fn spans_tapes(tape: &str) -> (several: bool)
    ensures
        several == tape@.contains(','),
{
    let label = chars_of(tape);
    let mut i: usize = 0;
    while i < label.len()
        invariant
            label@ == tape@,
            0 <= i <= label@.len(),
            forall|k: int| 0 <= k < i ==> label@[k] != ',',
        decreases label@.len() - i,
    {
        if label[i] == ',' {
            return true;
        }
        i += 1;
    }
    false
}

/// The positions, among the first `n` lines of an answer, of the lines that
/// describe a file in a wrong number of fields.
pub open spec fn incomplete_lines(lines: Seq<Seq<char>>, n: int) -> Seq<usize>
    decreases n,
{
    if n <= 0 {
        Seq::empty()
    } else if is_file_line(lines[n - 1]) && !is_complete(lines[n - 1]) {
        incomplete_lines(lines, n - 1).push((n - 1) as usize)
    } else {
        incomplete_lines(lines, n - 1)
    }
}

/// The positions of the lines of an answer that describe a file in a wrong
/// number of fields. Reading the answer passes over them; a caller that
/// wants to report them finds them here.
pub fn skipped_lines(file_metadata: &Vec<String>) -> (skipped: Vec<usize>)
    ensures
        skipped@ == incomplete_lines(texts(file_metadata@), file_metadata@.len() as int),
{
    let mut skipped: Vec<usize> = Vec::new();
    let mut i: usize = 0;
    while i < file_metadata.len()
        invariant
            0 <= i <= file_metadata@.len(),
            skipped@ == incomplete_lines(texts(file_metadata@), i as int),
        decreases file_metadata@.len() - i,
    {
        assert(texts(file_metadata@)[i as int] == file_metadata@[i as int]@);
        if let MetadataLine::Incomplete = parse_metadata_line(file_metadata[i].as_str()) {
            skipped.push(i);
        }
        i += 1;
    }
    skipped
}

/// The files that the first `n` lines of an answer give, in order.
pub open spec fn parsed_files(lines: Seq<Seq<char>>, n: int) -> Seq<HpssFileView>
    decreases n,
{
    if n <= 0 {
        Seq::empty()
    } else if gives_file(lines[n - 1]) {
        parsed_files(lines, n - 1).push(described_file(lines[n - 1])->0)
    } else {
        parsed_files(lines, n - 1)
    }
}

/// The values of a sequence of archive files.
pub open spec fn hpss_views(files: Seq<HpssFile>) -> Seq<HpssFileView> {
    files.map_values(|f: HpssFile| f@)
}

/// Whether no line of an answer is complete and holds a number that cannot
/// be read.
pub open spec fn is_readable(lines: Seq<Seq<char>>) -> bool {
    forall|i: int| 0 <= i < lines.len() ==> !is_malformed(#[trigger] lines[i])
}

/// Reads the archive's answer to a batch of queries. Lines that echo a
/// command and lines with a wrong number of fields are passed over; every
/// other line gives one file. The first complete line with a number that
/// cannot be read is an error.
pub fn try_parse_tape_metadata(file_metadata: Vec<String>) -> (r: Result<Vec<HpssFile>, PlanError>)
    ensures
        match r {
            Ok(files) => {
                &&& forall|i: int|
                    0 <= i < file_metadata@.len() ==> !is_malformed(#[trigger] file_metadata@[i]@)
                &&& hpss_views(files@) == parsed_files(
                    texts(file_metadata@),
                    file_metadata@.len() as int,
                )
            },
            Err(e) => exists|bad: usize|
                {
                    &&& e == (PlanError::MalformedMetadata { line: bad })
                    &&& bad < file_metadata@.len()
                    &&& is_malformed(file_metadata@[bad as int]@)
                    &&& forall|i: int| 0 <= i < bad ==> !is_malformed(#[trigger] file_metadata@[i]@)
                },
        },
{
    let mut files: Vec<HpssFile> = Vec::new();
    let mut i: usize = 0;
    assert(hpss_views(files@) =~= parsed_files(texts(file_metadata@), 0));
    while i < file_metadata.len()
        invariant
            0 <= i <= file_metadata.len(),
            forall|k: int| 0 <= k < i ==> !is_malformed(#[trigger] file_metadata@[k]@),
            hpss_views(files@) == parsed_files(texts(file_metadata@), i as int),
        decreases file_metadata.len() - i,
    {
        assert(texts(file_metadata@)[i as int] == file_metadata@[i as int]@);
        match parse_metadata_line(file_metadata[i].as_str()) {
            MetadataLine::Echo => {},
            MetadataLine::Incomplete => {},
            MetadataLine::Malformed => {
                return Err(PlanError::MalformedMetadata { line: i });
            },
            MetadataLine::File(file) => {
                assert(hpss_views(files@.push(file)) =~= hpss_views(files@).push(file@));
                files.push(file);
            },
        }
        i += 1;
    }
    Ok(files)
}

/// Reads an answer of the archive of which every complete line can be
/// read. Lines that echo a command and lines with a wrong number of fields
/// are passed over; every other line gives one file.
pub fn parse_tape_metadata(file_metadata: Vec<String>) -> (files: Vec<HpssFile>)
    requires
        is_readable(texts(file_metadata@)),
    ensures
        hpss_views(files@) == parsed_files(texts(file_metadata@), file_metadata@.len() as int),
{
    let ghost lines = file_metadata@;
    match try_parse_tape_metadata(file_metadata) {
        Ok(files) => files,
        Err(_) => {
            proof {
                let bad = choose|bad: usize| bad < lines.len() && is_malformed(lines[bad as int]@);
                assert(!is_malformed(texts(lines)[bad as int]));
            }
            Vec::new()
        },
    }
}

} // verus!
