//! The manifest of an entry directory: one line with the format version,
//! then one line for each generation, the newest first.

use crate::bytes::views;
use crate::split::{split_bytes, split_on};
use crate::decimal::{decimal, parse_u64, parse_unsigned, push_decimal};
use crate::error::{Error, ErrorKind, Result};
use crate::opts::Encoding;
use crate::time::{duration_from_nano_string, timestamp_of, Duration};
use std::collections::VecDeque;
use vstd::prelude::*;
use vstd::string::StringExecFns;

verus! {

/// Version number written on the first line of every manifest.
pub const MANIFEST_VERSION: u64 = 1;

pub const NEWLINE: u8 = 0x0a;

pub const CARRIAGE_RETURN: u8 = 0x0d;

pub const COMMA: u8 = 0x2c;

/// What the manifest records of one generation.
#[derive(Debug, Clone, Copy)]
pub struct ContentGeneration {
    pub encoding: Encoding,
    /// When the generation was written, as the time since the epoch.
    pub age: Duration,
}

pub ghost struct GenerationView {
    pub encoding: Encoding,
    /// Nanoseconds since the epoch.
    pub age: nat,
}

impl View for ContentGeneration {
    type V = GenerationView;

    open spec fn view(&self) -> GenerationView {
        GenerationView { encoding: self.encoding, age: self.age@ }
    }
}

/// The records of a list of generations, in plain values.
pub open spec fn records(gens: Seq<ContentGeneration>) -> Seq<GenerationView> {
    gens.map_values(|g: ContentGeneration| g@)
}

/// The line of one generation: its age in nanoseconds, a comma, the tag of
/// its encoding, and a newline.
pub open spec fn render_line(gen: GenerationView) -> Seq<u8> {
    decimal(gen.age) + seq![COMMA] + gen.encoding.tag() + seq![NEWLINE]
}

pub open spec fn render_lines(gens: Seq<GenerationView>) -> Seq<u8>
    decreases gens.len(),
{
    if gens.len() == 0 {
        Seq::<u8>::empty()
    } else {
        render_lines(gens.drop_last()) + render_line(gens.last())
    }
}

/// The text of a manifest.
pub open spec fn render_manifest(version: nat, gens: Seq<GenerationView>) -> Seq<u8> {
    decimal(version) + seq![NEWLINE] + render_lines(gens)
}

/// Writes the manifest of the generations `gens`, the newest first.
pub fn write_manifest(gens: &VecDeque<ContentGeneration>) -> (text: Vec<u8>)
    ensures
        text@ == render_manifest(MANIFEST_VERSION as nat, records(gens@)),
{
    let mut text: Vec<u8> = Vec::new();
    push_decimal(&mut text, MANIFEST_VERSION as u128);
    text.push(NEWLINE);
    let ghost head = text@;
    assert(head =~= decimal(MANIFEST_VERSION as nat) + seq![NEWLINE]);
    let mut i: usize = 0;
    assert(records(gens@).take(0) =~= Seq::<GenerationView>::empty());
    while i < gens.len()
        invariant
            0 <= i <= gens.len(),
            head == decimal(MANIFEST_VERSION as nat) + seq![NEWLINE],
            text@ == head + render_lines(records(gens@).take(i as int)),
        decreases gens.len() - i,
    {
        let gen = gens[i];
        let ghost before = text@;
        push_decimal(&mut text, gen.age.as_nanos());
        text.push(COMMA);
        let mut tag = gen.encoding.serialize();
        text.append(&mut tag);
        text.push(NEWLINE);
        proof {
            let done = records(gens@).take(i as int);
            let next = records(gens@).take(i + 1);
            assert(next.drop_last() =~= done);
            assert(next.last() == gen@);
            assert(text@ =~= before + render_line(gen@));
            assert(text@ =~= head + render_lines(next));
        }
        i += 1;
    }
    assert(records(gens@).take(i as int) =~= records(gens@));
    text
}

/// A piece without the carriage return at its end, if it has one.
pub open spec fn strip_cr(piece: Seq<u8>) -> Seq<u8> {
    if piece.len() > 0 && piece.last() == CARRIAGE_RETURN {
        piece.drop_last()
    } else {
        piece
    }
}

/// The lines of a text. A line ends with a newline, or with a carriage
/// return and a newline; neither belongs to the line. What follows the last
/// newline is a line of its own unless it is empty.
pub open spec fn lines(text: Seq<u8>) -> Seq<Seq<u8>> {
    let pieces = split_on(text, NEWLINE);
    let ended = pieces.drop_last().map_values(|p: Seq<u8>| strip_cr(p));
    if pieces.last().len() == 0 {
        ended
    } else {
        ended.push(pieces.last())
    }
}

/// Where `b` first occurs in `s`, or the length of `s` where it does not occur.
pub open spec fn position(s: Seq<u8>, b: u8) -> int
    decreases s.len(),
{
    if s.len() == 0 || s[0] == b {
        0
    } else {
        1 + position(s.skip(1), b)
    }
}

/// What one line of a manifest says of a generation, or the kind of the
/// failure: the line is cut at its first comma; before it stands the age
/// in nanoseconds, behind it the tag of the encoding.
pub open spec fn parse_line(line: Seq<u8>) -> core::result::Result<GenerationView, ErrorKind> {
    let comma = position(line, COMMA);
    if comma == line.len() {
        Err(ErrorKind::ParseMetadata)
    } else {
        match timestamp_of(line.take(comma)) {
            Err(kind) => Err(kind),
            Ok(age) => match Encoding::from_tag(line.skip(comma + 1)) {
                None => Err(ErrorKind::ParseMetadata),
                Some(encoding) => Ok(GenerationView { encoding, age }),
            },
        }
    }
}

/// What the lines of generations say, in the order of the lines; the first
/// line that fails decides the failure.
pub open spec fn parse_lines(ls: Seq<Seq<u8>>) -> core::result::Result<
    Seq<GenerationView>,
    ErrorKind,
>
    decreases ls.len(),
{
    if ls.len() == 0 {
        Ok(Seq::<GenerationView>::empty())
    } else {
        match parse_lines(ls.drop_last()) {
            Err(kind) => Err(kind),
            Ok(gens) => match parse_line(ls.last()) {
                Err(kind) => Err(kind),
                Ok(gen) => Ok(gens.push(gen)),
            },
        }
    }
}

/// What a manifest says: the version on its first line and the generations
/// on the lines after it, the newest first. A text without any line is no
/// manifest.
pub open spec fn parse_manifest(text: Seq<u8>) -> core::result::Result<
    (nat, Seq<GenerationView>),
    ErrorKind,
> {
    let ls = lines(text);
    if ls.len() == 0 {
        Err(ErrorKind::ParseMetadata)
    } else {
        match parse_unsigned(ls[0], u64::MAX as nat) {
            None => Err(ErrorKind::ParseMetadata),
            Some(version) => match parse_lines(ls.skip(1)) {
                Err(kind) => Err(kind),
                Ok(gens) => Ok((version, gens)),
            },
        }
    }
}

/// `position` is the first place at which the byte stands.
pub proof fn lemma_position(s: Seq<u8>, b: u8, at: int)
    requires
        0 <= at <= s.len(),
        forall|j: int| 0 <= j < at ==> s[j] != b,
        at == s.len() || s[at] == b,
    ensures
        position(s, b) == at,
    decreases at,
{
    if at > 0 {
        lemma_position(s.skip(1), b, at - 1);
    }
}

/// Cuts a text into its lines.
pub fn text_lines(text: &[u8]) -> (ls: Vec<Vec<u8>>)
    ensures
        views(ls@) == lines(text@),
{
    let mut pieces = split_bytes(text, NEWLINE);
    let ghost all = views(pieces@);
    proof {
        crate::split::lemma_split_nonempty(text@, NEWLINE);
    }
    let last = pieces.pop().unwrap();
    assert(views(pieces@) =~= all.drop_last());
    assert(last@ == all.last());
    let mut ls: Vec<Vec<u8>> = Vec::new();
    let mut i: usize = 0;
    while i < pieces.len()
        invariant
            0 <= i <= pieces.len(),
            views(ls@) == views(pieces@).take(i as int).map_values(|p: Seq<u8>| strip_cr(p)),
        decreases pieces.len() - i,
    {
        let ghost before = views(ls@);
        let mut line = crate::bytes::to_vec(pieces[i].as_slice());
        if line.len() > 0 && line[line.len() - 1] == CARRIAGE_RETURN {
            line.pop();
        }
        assert(line@ =~= strip_cr(pieces@[i as int]@));
        ls.push(line);
        assert(views(ls@) =~= before.push(strip_cr(pieces@[i as int]@)));
        assert(views(ls@) =~= views(pieces@).take(i + 1).map_values(|p: Seq<u8>| strip_cr(p)));
        i += 1;
    }
    assert(views(pieces@).take(i as int) =~= views(pieces@));
    if last.len() > 0 {
        let ghost before = views(ls@);
        ls.push(last);
        assert(views(ls@) =~= before.push(last@));
    }
    ls
}

/// Reads one line of a manifest.
pub fn read_line(line: &[u8]) -> (r: Result<ContentGeneration>)
    ensures
        match parse_line(line@) {
            Ok(gen) => r is Ok && r->Ok_0@ == gen,
            Err(kind) => r is Err && r->Err_0.kind() == kind,
        },
{
    let mut comma: usize = 0;
    while comma < line.len() && line[comma] != COMMA
        invariant
            0 <= comma <= line.len(),
            forall|j: int| 0 <= j < comma ==> line@[j] != COMMA,
        decreases line.len() - comma,
    {
        comma += 1;
    }
    proof {
        lemma_position(line@, COMMA, comma as int);
    }
    if comma == line.len() {
        return Err(Error::ParseMetadata(String::from_str("Metadata was not comma separated")));
    }
    let age_text = vstd::slice::slice_subrange(line, 0, comma);
    let tag_text = vstd::slice::slice_subrange(line, comma + 1, line.len());
    assert(age_text@ =~= line@.take(comma as int));
    assert(tag_text@ =~= line@.skip(comma + 1));
    let age = match duration_from_nano_string(age_text) {
        Ok(age) => age,
        Err(e) => {
            return Err(e);
        },
    };
    let encoding = match Encoding::deserialize(tag_text) {
        Ok(encoding) => encoding,
        Err(e) => {
            return Err(e);
        },
    };
    Ok(ContentGeneration { encoding, age })
}

/// Reads a manifest, if there is one: its version and its generations, the
/// newest first.
pub fn read_metadata(content: Option<&[u8]>) -> (r: Result<
    Option<(u64, VecDeque<ContentGeneration>)>,
>)
    ensures
        match content {
            None => r is Ok && r->Ok_0 is None,
            Some(text) => match parse_manifest(text@) {
                Ok((version, gens)) => r matches Ok(Some((v, g))) && v == version && records(g@)
                    == gens,
                Err(kind) => r is Err && r->Err_0.kind() == kind,
            },
        },
{
    let text = match content {
        Some(text) => text,
        None => {
            return Ok(None);
        },
    };
    let ls = text_lines(text);
    if ls.len() == 0 {
        return Err(Error::ParseMetadata(String::from_str("Manifest was empty")));
    }
    assert(views(ls@)[0] == ls@[0]@);
    let version = match parse_u64(ls[0].as_slice()) {
        Some(version) => version,
        None => {
            return Err(
                Error::ParseMetadata(String::from_str("Failed to parse version from metadata")),
            );
        },
    };
    let ghost rest = views(ls@).skip(1);
    let mut generations: VecDeque<ContentGeneration> = VecDeque::new();
    let mut i: usize = 1;
    assert(rest.take(0) =~= Seq::<Seq<u8>>::empty());
    assert(records(generations@) =~= Seq::<GenerationView>::empty());
    while i < ls.len()
        invariant
            1 <= i <= ls.len(),
            content == Some(text),
            views(ls@) == lines(text@),
            parse_unsigned(lines(text@)[0], u64::MAX as nat) == Some(version as nat),
            rest == views(ls@).skip(1),
            parse_lines(rest.take(i - 1)) == Ok::<Seq<GenerationView>, ErrorKind>(
                records(generations@),
            ),
        decreases ls.len() - i,
    {
        let ghost done = rest.take(i - 1);
        let ghost next = rest.take(i as int);
        let ghost before = records(generations@);
        assert(next.drop_last() =~= done);
        assert(next.last() == ls@[i as int]@);
        let gen = match read_line(ls[i].as_slice()) {
            Ok(gen) => gen,
            Err(e) => {
                proof {
                    lemma_parse_lines_grows(rest, i as int);
                }
                return Err(e);
            },
        };
        generations.push_back(gen);
        assert(records(generations@) =~= before.push(gen@));
        i += 1;
    }
    assert(rest.take(i - 1) =~= rest);
    Ok(Some((version, generations)))
}

/// A failure among the first lines is the failure of all of them.
pub proof fn lemma_parse_lines_grows(ls: Seq<Seq<u8>>, k: int)
    requires
        0 <= k <= ls.len(),
        parse_lines(ls.take(k)) is Err,
    ensures
        parse_lines(ls) == parse_lines(ls.take(k)),
    decreases ls.len() - k,
{
    if k == ls.len() {
        assert(ls.take(k) =~= ls);
    } else {
        assert(ls.take(k + 1).drop_last() =~= ls.take(k));
        lemma_parse_lines_grows(ls, k + 1);
    }
}

} // verus!
