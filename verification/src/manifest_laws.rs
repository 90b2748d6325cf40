//! What holds of the manifest: reading back what was written gives the
//! generations that were written.

use crate::split::{lemma_split_concat, lemma_split_ended, lemma_split_one, split_on};
use crate::decimal::{decimal, is_digit, lemma_decimal_digits, lemma_decimal_round_trip};
use crate::error::ErrorKind;
use crate::manifest::{
    lemma_position, lines, parse_line, parse_lines, parse_manifest, render_line, render_lines,
    render_manifest, strip_cr, GenerationView, COMMA, NEWLINE,
};
use crate::opts::lemma_tag_round_trip;
use crate::time::MAX_NANOS;
use vstd::prelude::*;

verus! {

/// The line of a generation without the newline at its end.
pub open spec fn line_body(gen: GenerationView) -> Seq<u8> {
    decimal(gen.age) + seq![COMMA] + gen.encoding.tag()
}

pub open spec fn line_bodies(gens: Seq<GenerationView>) -> Seq<Seq<u8>> {
    gens.map_values(|gen: GenerationView| line_body(gen))
}

/// Whether every generation is of an age that a timestamp can hold.
pub open spec fn ages_fit(gens: Seq<GenerationView>) -> bool {
    forall|i: int| 0 <= i < gens.len() ==> (#[trigger] gens[i]).age <= MAX_NANOS
}

/// The line of a generation holds no newline and does not end in a
/// carriage return, and reads back as the generation.
pub proof fn lemma_line_body(gen: GenerationView)
    requires
        gen.age <= MAX_NANOS,
    ensures
        forall|j: int| 0 <= j < line_body(gen).len() ==> line_body(gen)[j] != NEWLINE,
        line_body(gen).len() > 0,
        strip_cr(line_body(gen)) == line_body(gen),
        parse_line(line_body(gen)) == Ok::<GenerationView, ErrorKind>(gen),
{
    let digits = decimal(gen.age);
    let tag = gen.encoding.tag();
    let body = line_body(gen);
    lemma_decimal_digits(gen.age);
    assert forall|j: int| 0 <= j < body.len() implies body[j] != NEWLINE && (j < digits.len()
        ==> body[j] != COMMA) by {
        if j < digits.len() {
            assert(body[j] == digits[j]);
            assert(is_digit(digits[j]));
        } else if j == digits.len() {
        } else {
            assert(body[j] == tag[j - digits.len() - 1]);
        }
    }
    assert(body.last() == tag.last());
    assert(body[digits.len() as int] == COMMA);
    lemma_position(body, COMMA, digits.len() as int);
    assert(body.take(digits.len() as int) =~= digits);
    assert(body.skip(digits.len() as int + 1) =~= tag);
    lemma_decimal_round_trip(gen.age, u128::MAX as nat);
    lemma_tag_round_trip(gen.encoding);
}

/// The lines of one generation or more end in a newline.
pub proof fn lemma_lines_end(gens: Seq<GenerationView>)
    requires
        gens.len() > 0,
    ensures
        render_lines(gens).len() > 0,
        render_lines(gens).last() == NEWLINE,
{
    assert(render_line(gens.last()).last() == NEWLINE);
}

/// The lines of generations, cut at the newlines, are the lines without
/// their newlines, and an empty piece behind the last newline.
pub proof fn lemma_split_lines(gens: Seq<GenerationView>)
    requires
        ages_fit(gens),
    ensures
        split_on(render_lines(gens), NEWLINE) == line_bodies(gens).push(Seq::<u8>::empty()),
    decreases gens.len(),
{
    let text = render_lines(gens);
    if gens.len() == 0 {
        assert(split_on(text, NEWLINE) =~= line_bodies(gens).push(Seq::<u8>::empty()));
    } else {
        let front = gens.drop_last();
        let gen = gens.last();
        let body = line_body(gen);
        let before = render_lines(front);
        assert(ages_fit(front)) by {
            assert forall|i: int| 0 <= i < front.len() implies (#[trigger] front[i]).age
                <= MAX_NANOS by {
                assert(front[i] == gens[i]);
            }
        }
        lemma_split_lines(front);
        assert(split_on(body, NEWLINE) == seq![body]) by {
            lemma_line_body(gen);
            lemma_split_one(body, NEWLINE);
        }
        assert(text == (before + body).push(NEWLINE)) by {
            assert(render_line(gen) =~= body.push(NEWLINE));
            assert(text =~= (before + body).push(NEWLINE));
        }
        lemma_split_ended(before + body, NEWLINE);
        assert(line_bodies(gens) == line_bodies(front).push(body)) by {
            assert(line_bodies(gens) =~= line_bodies(front).push(body));
        }
        assert(split_on(before + body, NEWLINE) == line_bodies(front).push(body)) by {
            if front.len() == 0 {
                assert(before =~= Seq::<u8>::empty());
                assert(before + body =~= body);
                assert(line_bodies(front).push(body) =~= seq![body]);
            } else {
                lemma_lines_end(front);
                let stem = before.drop_last();
                assert(before == stem.push(NEWLINE)) by {
                    assert(before =~= stem.push(NEWLINE));
                }
                lemma_split_ended(stem, NEWLINE);
                assert(split_on(stem, NEWLINE) == line_bodies(front)) by {
                    let a = split_on(stem, NEWLINE);
                    let b = line_bodies(front);
                    let e = Seq::<u8>::empty();
                    assert(a.push(e) == b.push(e));
                    assert(a.push(e).drop_last() =~= a);
                    assert(b.push(e).drop_last() =~= b);
                }
                assert(before + body == stem + seq![NEWLINE] + body) by {
                    assert(before + body =~= stem + seq![NEWLINE] + body);
                }
                lemma_split_concat(stem, body, NEWLINE);
                assert(line_bodies(front) + seq![body] =~= line_bodies(front).push(body));
            }
        }
    }
}

/// The lines of generations read back as the generations.
pub proof fn lemma_parse_line_bodies(gens: Seq<GenerationView>)
    requires
        ages_fit(gens),
    ensures
        parse_lines(line_bodies(gens)) == Ok::<Seq<GenerationView>, ErrorKind>(gens),
    decreases gens.len(),
{
    if gens.len() == 0 {
        assert(line_bodies(gens) =~= Seq::<Seq<u8>>::empty());
        assert(gens =~= Seq::<GenerationView>::empty());
    } else {
        let front = gens.drop_last();
        assert(ages_fit(front)) by {
            assert forall|i: int| 0 <= i < front.len() implies (#[trigger] front[i]).age
                <= MAX_NANOS by {
                assert(front[i] == gens[i]);
            }
        }
        lemma_parse_line_bodies(front);
        lemma_line_body(gens.last());
        assert(line_bodies(gens).drop_last() =~= line_bodies(front));
        assert(line_bodies(gens).last() == line_body(gens.last()));
        assert(front.push(gens.last()) =~= gens);
    }
}

/// Reading back the manifest that was written for a version and a list of
/// generations gives that version and those generations, in their order.
pub proof fn lemma_manifest_round_trip(version: nat, gens: Seq<GenerationView>)
    requires
        version <= u64::MAX,
        ages_fit(gens),
    ensures
        parse_manifest(render_manifest(version, gens)) == Ok::<
            (nat, Seq<GenerationView>),
            ErrorKind,
        >((version, gens)),
{
    let head = decimal(version);
    let rest = render_lines(gens);
    let text = render_manifest(version, gens);
    lemma_decimal_digits(version);
    assert forall|j: int| 0 <= j < head.len() implies head[j] != NEWLINE by {
        assert(is_digit(head[j]));
    }
    lemma_split_one(head, NEWLINE);
    lemma_split_concat(head, rest, NEWLINE);
    lemma_split_lines(gens);
    let pieces = split_on(text, NEWLINE);
    let bodies = line_bodies(gens);
    assert(pieces =~= seq![head] + bodies.push(Seq::<u8>::empty()));
    assert(pieces.last().len() == 0);
    assert(pieces.drop_last() =~= seq![head] + bodies);
    assert(is_digit(head.last()));
    assert(strip_cr(head) == head);
    let read = lines(text);
    assert(read =~= seq![head] + bodies) by {
        assert forall|i: int| 0 <= i < pieces.len() - 1 implies strip_cr(
            #[trigger] pieces.drop_last()[i],
        ) == (seq![head] + bodies)[i] by {
            if i > 0 {
                assert(pieces.drop_last()[i] == line_body(gens[i - 1]));
                lemma_line_body(gens[i - 1]);
            }
        }
    }
    assert(read[0] == head);
    assert(read.skip(1) =~= bodies);
    lemma_decimal_round_trip(version, u64::MAX as nat);
    lemma_parse_line_bodies(gens);
}

} // verus!
