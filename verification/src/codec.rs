//! Record codec: formatting checksum records in GNU or BSD/tag style,
//! and parsing manifest lines back, against a fixed grammar.

use vstd::prelude::*;
use vstd::string::StrSliceExecFns;
use vstd::string::StringExecFns;
use crate::reflow::split_lines;
use crate::reflow::unwrap_lines;

verus! {

/// One checksum record: the unit's name, whether it was hashed in
/// binary mode, and its digest as a hexadecimal string.
#[derive(Debug, PartialEq)]
pub struct Md5Record {
    pub file_name: String,
    pub binary: bool,
    pub hash: String,
}

/// The mathematical content of a record.
#[verifier::ext_equal]
pub ghost struct RecordView {
    pub file_name: Seq<char>,
    pub binary: bool,
    pub hash: Seq<char>,
}

impl View for Md5Record {
    type V = RecordView;

    open spec fn view(&self) -> RecordView {
        RecordView { file_name: self.file_name@, binary: self.binary, hash: self.hash@ }
    }
}

/// Why a manifest line failed to parse.
#[derive(Clone, Copy, Debug, PartialEq, Eq, Structural)]
pub enum ParseError {
    /// The line does not begin with 32 hexadecimal characters followed
    /// by a space.
    BadHash,
    /// The separator character after that space is neither a space nor
    /// an asterisk.
    BadSeparator,
    /// Nothing follows the separator.
    MissingName,
    /// The name begins with whitespace or an asterisk.
    BadNameStart,
}

pub open spec fn is_hex_char(c: char) -> bool {
    ('0' <= c && c <= '9') || ('a' <= c && c <= 'f') || ('A' <= c && c <= 'F')
}

/// Characters that may not open a name: whitespace or the asterisk.
pub open spec fn bad_name_start(c: char) -> bool {
    c == ' ' || c == '\t' || c == '\n' || c == '\r' || c == '*'
}

/// The line opens with 32 hexadecimal characters and one space.
pub open spec fn hash_part_ok(s: Seq<char>) -> bool {
    s.len() >= 33 && (forall|i: int| 0 <= i < 32 ==> is_hex_char(#[trigger] s[i])) && s[32]
        == ' '
}

/// The grammar of a manifest line: 32 hexadecimal characters, one
/// space, one separator that is a space or an asterisk, then a name of
/// one or more characters not opening with whitespace or an asterisk,
/// running to the end of the line.
pub open spec fn line_well_formed(s: Seq<char>) -> bool {
    hash_part_ok(s) && s.len() >= 35 && (s[33] == ' ' || s[33] == '*') && !bad_name_start(s[34])
}

/// The failure a malformed line is charged with: the first of its
/// deviations, scanning left to right.
pub open spec fn parse_error_of(s: Seq<char>) -> ParseError {
    if !hash_part_ok(s) {
        ParseError::BadHash
    } else if !(s.len() >= 34 && (s[33] == ' ' || s[33] == '*')) {
        ParseError::BadSeparator
    } else if s.len() < 35 {
        ParseError::MissingName
    } else {
        ParseError::BadNameStart
    }
}

/// The record a well-formed line denotes: an asterisk separator marks
/// binary, a space marks text.
pub open spec fn record_of_line(s: Seq<char>) -> RecordView {
    RecordView {
        file_name: s.subrange(34, s.len() as int),
        binary: s[33] == '*',
        hash: s.subrange(0, 32),
    }
}

/// What parsing one manifest line yields.
pub open spec fn parse_spec(s: Seq<char>) -> Result<RecordView, ParseError> {
    if line_well_formed(s) {
        Ok(record_of_line(s))
    } else {
        Err(parse_error_of(s))
    }
}

fn is_hex_char_exec(c: char) -> (r: bool)
    ensures
        r == is_hex_char(c),
{
    ('0' <= c && c <= '9') || ('a' <= c && c <= 'f') || ('A' <= c && c <= 'F')
}

/// Parses one manifest line against the fixed grammar, yielding the
/// record or the failure the grammar charges the line with.
pub fn parse_line(line: &str) -> (r: Result<Md5Record, ParseError>)
    ensures
        match r {
            Ok(rec) => parse_spec(line@) == Ok::<RecordView, ParseError>(rec@),
            Err(e) => parse_spec(line@) == Err::<RecordView, ParseError>(e),
        },
{
    let n = line.unicode_len();
    if n < 33 {
        return Err(ParseError::BadHash);
    }
    let mut i: usize = 0;
    while i < 32
        invariant
            i <= 32,
            n == line@.len(),
            n >= 33,
            forall|j: int| 0 <= j < i ==> is_hex_char(#[trigger] line@[j]),
        decreases 32 - i,
    {
        let c = line.get_char(i);
        if !is_hex_char_exec(c) {
            return Err(ParseError::BadHash);
        }
        i += 1;
    }
    if line.get_char(32) != ' ' {
        return Err(ParseError::BadHash);
    }
    if n < 34 {
        return Err(ParseError::BadSeparator);
    }
    let sep = line.get_char(33);
    if sep != ' ' && sep != '*' {
        return Err(ParseError::BadSeparator);
    }
    if n < 35 {
        return Err(ParseError::MissingName);
    }
    let first = line.get_char(34);
    if first == ' ' || first == '\t' || first == '\n' || first == '\r' || first == '*' {
        return Err(ParseError::BadNameStart);
    }
    let hash = line.substring_char(0, 32);
    let name = line.substring_char(34, n);
    Ok(
        Md5Record {
            file_name: String::from_str(name),
            binary: sep == '*',
            hash: String::from_str(hash),
        },
    )
}

/// The separator character of a GNU-style line: an asterisk for binary
/// mode, a second space for text mode.
pub open spec fn gnu_sep(binary: bool) -> char {
    if binary {
        '*'
    } else {
        ' '
    }
}

/// A GNU-style line: the digest, a space, the separator, then the name.
pub open spec fn gnu_line(r: RecordView) -> Seq<char> {
    r.hash + seq![' '] + seq![gnu_sep(r.binary)] + r.file_name
}

/// A BSD/tag-style line; binary mode is not observable in this style.
pub open spec fn tag_line(r: RecordView) -> Seq<char> {
    seq!['M', 'D', '5', ' ', '('] + r.file_name + seq![')', ' ', '=', ' '] + r.hash
}

/// Formats a record as one manifest line, in BSD/tag style when `tag`
/// is set and in GNU style otherwise.
pub fn format_output_line(md5_record: &Md5Record, tag: bool) -> (r: String)
    ensures
        tag ==> r@ == tag_line(md5_record@),
        !tag ==> r@ == gnu_line(md5_record@),
{
    let mut s = String::new();
    if tag {
        s.append("MD5 (");
        s.append(md5_record.file_name.as_str());
        s.append(") = ");
        s.append(md5_record.hash.as_str());
        proof {
            reveal_strlit("MD5 (");
            reveal_strlit(") = ");
            assert(s@ =~= tag_line(md5_record@));
        }
    } else {
        s.append(md5_record.hash.as_str());
        if md5_record.binary {
            s.append(" *");
            proof {
                reveal_strlit(" *");
            }
        } else {
            s.append("  ");
            proof {
                reveal_strlit("  ");
            }
        }
        s.append(md5_record.file_name.as_str());
        proof {
            assert(s@ =~= gnu_line(md5_record@));
        }
    }
    s
}

/// A record the codec can carry faithfully: a 32-character hexadecimal
/// digest and a name that the grammar admits.
pub open spec fn wf_record(r: RecordView) -> bool {
    r.hash.len() == 32 && (forall|i: int| 0 <= i < 32 ==> is_hex_char(#[trigger] r.hash[i]))
        && r.file_name.len() >= 1 && !bad_name_start(r.file_name[0])
}

/// Round trip: a well-formed record formatted in GNU style, in text or
/// binary mode, parses back to an equal record.
pub proof fn lemma_gnu_round_trip(r: RecordView)
    requires
        wf_record(r),
    ensures
        parse_spec(gnu_line(r)) == Ok::<RecordView, ParseError>(r),
{
    let line = gnu_line(r);
    assert(line.len() == 34 + r.file_name.len());
    assert(forall|i: int| 0 <= i < 32 ==> line[i] == r.hash[i]);
    assert(line[32] == ' ');
    assert(line[33] == gnu_sep(r.binary));
    assert(line[34] == r.file_name[0]);
    assert(line_well_formed(line));
    assert(line.subrange(0, 32) =~= r.hash);
    assert(line.subrange(34, line.len() as int) =~= r.file_name);
    assert((line[33] == '*') == r.binary);
    assert(record_of_line(line) =~= r);
}

/// A line with a trailing carriage return, read from a manifest whose
/// lines end in `"\r\n"`, sheds that carriage return.
pub open spec fn strip_cr(l: Seq<char>) -> Seq<char> {
    if l.len() > 0 && l[l.len() - 1] == '\r' {
        l.drop_last()
    } else {
        l
    }
}

/// The lines of a manifest: the blob split on newlines, a final empty
/// line from a trailing newline dropped, and each line's trailing
/// carriage return shed.
pub open spec fn manifest_lines(s: Seq<char>) -> Seq<Seq<char>> {
    let ls = split_lines(s);
    let trimmed = if ls.len() > 0 && ls.last().len() == 0 {
        ls.drop_last()
    } else {
        ls
    };
    trimmed.map_values(|l: Seq<char>| strip_cr(l))
}

/// The records of the lines that parse, in line order.
pub open spec fn manifest_records(ls: Seq<Seq<char>>) -> Seq<RecordView>
    decreases ls.len(),
{
    if ls.len() == 0 {
        Seq::<RecordView>::empty()
    } else {
        match parse_spec(ls[0]) {
            Ok(rec) => seq![rec] + manifest_records(ls.skip(1)),
            Err(_) => manifest_records(ls.skip(1)),
        }
    }
}

/// The failures of the lines that do not parse, each with the line's
/// 1-based position counted from `base`, in line order.
pub open spec fn manifest_errors(ls: Seq<Seq<char>>, base: nat) -> Seq<(nat, ParseError)>
    decreases ls.len(),
{
    if ls.len() == 0 {
        Seq::<(nat, ParseError)>::empty()
    } else {
        match parse_spec(ls[0]) {
            Ok(_) => manifest_errors(ls.skip(1), base + 1),
            Err(e) => seq![((base + 1) as nat, e)] + manifest_errors(ls.skip(1), base + 1),
        }
    }
}

pub proof fn lemma_manifest_snoc(ls: Seq<Seq<char>>, x: Seq<char>, base: nat)
    ensures
        manifest_records(ls.push(x)) == manifest_records(ls) + (match parse_spec(x) {
            Ok(rec) => seq![rec],
            Err(_) => Seq::<RecordView>::empty(),
        }),
        manifest_errors(ls.push(x), base) == manifest_errors(ls, base) + (match parse_spec(x) {
            Ok(_) => Seq::<(nat, ParseError)>::empty(),
            Err(e) => seq![((base + ls.len() + 1) as nat, e)],
        }),
    decreases ls.len(),
{
    if ls.len() == 0 {
        let t = ls.push(x);
        assert(t.len() == 1);
        assert(t[0] == x);
        assert(t.skip(1) =~= Seq::<Seq<char>>::empty());
        assert(manifest_records(t.skip(1)) == Seq::<RecordView>::empty());
        assert(manifest_errors(t.skip(1), base + 1) == Seq::<(nat, ParseError)>::empty());
        assert(manifest_records(ls) == Seq::<RecordView>::empty());
        assert(manifest_errors(ls, base) == Seq::<(nat, ParseError)>::empty());
        match parse_spec(x) {
            Ok(rec) => {
                assert(manifest_records(t) =~= manifest_records(ls) + seq![rec]);
                assert(manifest_errors(t, base) =~= manifest_errors(ls, base));
            },
            Err(e) => {
                assert(manifest_records(t) =~= manifest_records(ls));
                assert(manifest_errors(t, base) =~= manifest_errors(ls, base) + seq![
                    ((base + 1) as nat, e),
                ]);
            },
        }
    } else {
        let t = ls.push(x);
        assert(t[0] == ls[0]);
        assert(t.skip(1) =~= ls.skip(1).push(x));
        lemma_manifest_snoc(ls.skip(1), x, base + 1);
        match parse_spec(x) {
            Ok(rec) => {
                assert(manifest_records(t) =~= manifest_records(ls) + seq![rec]);
                assert(manifest_errors(t, base) =~= manifest_errors(ls, base));
            },
            Err(e) => {
                assert(manifest_records(t) =~= manifest_records(ls));
                assert(manifest_errors(t, base) =~= manifest_errors(ls, base) + seq![
                    ((base + ls.len() + 1) as nat, e),
                ]);
            },
        }
    }
}

/// The record views of a vector of records.
pub open spec fn records_view(v: Seq<Md5Record>) -> Seq<RecordView> {
    Seq::new(v.len(), |i: int| v[i]@)
}

/// One failed manifest line: its 1-based position and its failure.
#[derive(Clone, Copy, Debug, PartialEq, Eq, Structural)]
pub struct ManifestError {
    pub line_number: usize,
    pub error: ParseError,
}

/// Parses a whole manifest: every line is tried against the grammar, a
/// failing line is recorded with its 1-based position and does not stop
/// the lines after it.
pub fn parse_manifest(text: &str) -> (r: (Vec<Md5Record>, Vec<ManifestError>))
    ensures
        records_view(r.0@) == manifest_records(manifest_lines(text@)),
        r.1@.len() == manifest_errors(manifest_lines(text@), 0).len(),
        forall|i: int|
            0 <= i < r.1@.len() ==> (#[trigger] r.1@[i]).line_number as nat == manifest_errors(
                manifest_lines(text@),
                0,
            )[i].0 && r.1@[i].error == manifest_errors(manifest_lines(text@), 0)[i].1,
{
    let ghost mls = manifest_lines(text@);
    let mut lines = unwrap_lines(String::from_str(text));
    proof {
        crate::reflow::lemma_split_lines_nonempty(text@);
    }
    let last_is_empty = lines[lines.len() - 1].as_str().is_empty();
    if last_is_empty {
        let _ = lines.pop();
    }
    let ghost trimmed = crate::lines_view(lines@);
    proof {
        assert(mls == trimmed.map_values(|l: Seq<char>| strip_cr(l)));
        assert(mls.len() == trimmed.len());
    }
    let mut records: Vec<Md5Record> = Vec::new();
    let mut errors: Vec<ManifestError> = Vec::new();
    let mut i: usize = 0;
    proof {
        assert(mls.take(0) =~= Seq::<Seq<char>>::empty());
        assert(records_view(records@) =~= manifest_records(mls.take(0)));
    }
    while i < lines.len()
        invariant
            i <= lines@.len() == mls.len(),
            trimmed == crate::lines_view(lines@),
            mls == trimmed.map_values(|l: Seq<char>| strip_cr(l)),
            records_view(records@) == manifest_records(mls.take(i as int)),
            errors@.len() == manifest_errors(mls.take(i as int), 0).len(),
            forall|j: int|
                0 <= j < errors@.len() ==> (#[trigger] errors@[j]).line_number as nat
                    == manifest_errors(mls.take(i as int), 0)[j].0 && errors@[j].error
                    == manifest_errors(mls.take(i as int), 0)[j].1,
        decreases lines@.len() - i,
    {
        let ghost prefix = mls.take(i as int);
        proof {
            assert(mls[i as int] == strip_cr(trimmed[i as int]));
            assert(mls.take(i + 1) =~= prefix.push(mls[i as int]));
            lemma_manifest_snoc(prefix, mls[i as int], 0);
            assert(prefix.len() == i);
        }
        let raw = &lines[i];
        let rn = raw.as_str().unicode_len();
        let ends_cr = rn > 0 && raw.as_str().get_char(rn - 1) == '\r';
        let parsed = if ends_cr {
            let stripped = raw.as_str().substring_char(0, rn - 1);
            proof {
                assert(stripped@ =~= strip_cr(trimmed[i as int]));
            }
            parse_line(stripped)
        } else {
            proof {
                assert(raw@ =~= strip_cr(trimmed[i as int]));
            }
            parse_line(raw.as_str())
        };
        match parsed {
            Ok(rec) => {
                records.push(rec);
                proof {
                    assert(records_view(records@) =~~= manifest_records(mls.take(i + 1)));
                }
            },
            Err(e) => {
                errors.push(ManifestError { line_number: i + 1, error: e });
            },
        }
        i += 1;
    }
    proof {
        assert(mls.take(mls.len() as int) =~= mls);
    }
    (records, errors)
}

/// A manifest check succeeds only when no line failed and at least one
/// record was produced: a manifest of zero valid records is itself a
/// failure.
pub fn manifest_ok(records: &Vec<Md5Record>, errors: &Vec<ManifestError>) -> (r: bool)
    ensures
        r == (errors@.len() == 0 && records@.len() > 0),
{
    errors.len() == 0 && records.len() > 0
}

} // verus!
