//! What holds of every format string that is read.

use vstd::prelude::*;
use vstd::string::StringSliceAdditionalSpecFns;
use vstd::utf8::{
    decode_utf8, decode_utf8_encode_utf8, encode_utf8, encode_utf8_decode_utf8, is_char_boundary,
    is_char_boundary_start_end_of_seq, valid_utf8,
};

use crate::ascii::OPEN;
use crate::grammar::{
    argument_at, escape_at, is_brace, lemma_argument_extent, lemma_run_end, lemma_text_extent,
    run_end, text_extent, Class, Reference,
};
use crate::model::{
    advance, rendered, resolve, segment_text, segments_from, segments_of, SegmentView,
};
use crate::text::{
    lemma_ascii_boundaries, lemma_encode_concat, lemma_part_valid, lemma_str_bytes,
};
use crate::value::FormattableValue;
use crate::Arguments;

verus! {

/// The bytes of `s` with every doubled brace collapsed to one brace.
pub open spec fn collapsed(s: Seq<u8>) -> Seq<u8>
    decreases s.len(),
{
    if s.len() == 0 {
        s
    } else if escape_at(s, 0) {
        seq![s[0]] + collapsed(s.skip(2))
    } else {
        seq![s[0]] + collapsed(s.skip(1))
    }
}

/// Every segment is literal text.
pub open spec fn all_text<V>(segments: Seq<SegmentView<V>>) -> bool {
    forall|k: int| 0 <= k < segments.len() ==> #[trigger] segments[k] is Text
}

/// `segment` is an argument with the empty reference.
pub open spec fn takes_next<V>(segment: SegmentView<V>) -> bool {
    segment is Argument && segment->Argument_0.reference is Next
}

/// The number of arguments with the empty reference among `segments`.
pub open spec fn empty_references<V>(segments: Seq<SegmentView<V>>) -> nat
    decreases segments.len(),
{
    if segments.len() == 0 {
        0
    } else if takes_next(segments[0]) {
        1 + empty_references(segments.drop_first())
    } else {
        empty_references(segments.drop_first())
    }
}

/// The text of segments is the text of the first of them and then the text
/// of the others.
pub proof fn lemma_rendered_concat<V: FormattableValue>(
    a: Seq<SegmentView<V>>,
    b: Seq<SegmentView<V>>,
)
    ensures
        rendered(a + b) == rendered(a) + rendered(b),
    decreases b.len(),
{
    if b.len() == 0 {
        assert(a + b =~= a);
        assert(rendered(a) + rendered(b) =~= rendered(a));
    } else {
        lemma_rendered_concat(a, b.drop_last());
        assert((a + b).drop_last() =~= a + b.drop_last());
        assert(rendered(a + b) =~= rendered(a) + rendered(b));
    }
}

/// Collapsing leaves a run of literal bytes as it is.
proof fn lemma_collapsed_run(s: Seq<u8>, from: int, stop: int)
    requires
        0 <= from <= stop <= s.len(),
        forall|k: int| from <= k < stop ==> !is_brace(#[trigger] s[k]),
    ensures
        collapsed(s.skip(from)) == s.subrange(from, stop) + collapsed(s.skip(stop)),
    decreases stop - from,
{
    if from == stop {
        assert(s.subrange(from, stop) + collapsed(s.skip(stop)) =~= collapsed(s.skip(stop)));
    } else {
        lemma_collapsed_run(s, from + 1, stop);
        assert(s.skip(from)[0] == s[from]);
        assert(s.skip(from).skip(1) =~= s.skip(from + 1));
        assert(seq![s[from]] + (s.subrange(from + 1, stop) + collapsed(s.skip(stop)))
            =~= s.subrange(from, stop) + collapsed(s.skip(stop)));
    }
}

/// The law of text rendering, for what is read from a character boundary
/// on.
proof fn lemma_text_rendering_from<V: FormattableValue>(
    s: Seq<u8>,
    from: int,
    next: nat,
    positional: Seq<V>,
    named: Map<Seq<char>, V>,
)
    requires
        valid_utf8(s),
        0 <= from <= s.len(),
        is_char_boundary(s, from),
        segments_from(s, from, next, positional, named) is Ok,
        all_text(segments_from(s, from, next, positional, named)->Ok_0),
    ensures
        encode_utf8(rendered(segments_from(s, from, next, positional, named)->Ok_0)) == collapsed(
            s.skip(from),
        ),
    decreases s.len() - from,
{
    let segments = segments_from(s, from, next, positional, named)->Ok_0;
    if from >= s.len() {
        assert(s.skip(from) =~= Seq::<u8>::empty());
        assert(rendered(segments) =~= Seq::<char>::empty());
    } else if !is_brace(s[from]) || escape_at(s, from) {
        let (end, resume) = text_extent(s, from);
        let stop = run_end(s, from, Class::Literal);
        lemma_text_extent(s, from);
        lemma_run_end(s, from, Class::Literal);
        is_char_boundary_start_end_of_seq(s);
        if end < resume {
            lemma_ascii_boundaries(s, end);
        } else if resume < s.len() {
            lemma_ascii_boundaries(s, resume);
        }
        lemma_part_valid(s, from, end);
        let text = SegmentView::<V>::Text(decode_utf8(s.subrange(from, end)));
        let rest = segments_from(s, resume, next, positional, named)->Ok_0;
        assert(segments == seq![text] + rest);
        assert forall|k: int| 0 <= k < rest.len() implies #[trigger] rest[k] is Text by {
            assert(segments[k + 1] is Text);
        }
        lemma_text_rendering_from(s, resume, next, positional, named);
        lemma_rendered_concat(seq![text], rest);
        assert(seq![text].drop_last() =~= Seq::<SegmentView<V>>::empty());
        assert(rendered(seq![text].drop_last()) =~= Seq::<char>::empty());
        assert(rendered(seq![text]) =~= segment_text(text));
        lemma_encode_concat(segment_text(text), rendered(rest));
        decode_utf8_encode_utf8(s.subrange(from, end));
        lemma_collapsed_run(s, from, stop);
        if end < resume {
            assert(s.skip(stop)[0] == s[stop]);
            assert(s.skip(stop)[1] == s[stop + 1]);
            assert(escape_at(s.skip(stop), 0));
            assert(s.skip(stop).skip(2) =~= s.skip(resume));
            assert(s.subrange(from, stop) + (seq![s[stop]] + collapsed(s.skip(resume)))
                =~= s.subrange(from, end) + collapsed(s.skip(resume)));
        }
    } else {
        if s[from] == OPEN {
            lemma_argument_extent(s, from);
            assert(segments[0] is Argument);
        }
    }
}

/// A format string that is read as literal text only renders as itself with
/// every doubled brace collapsed to one: the rendered text is the text that
/// the collapsed bytes of the format string encode.
pub proof fn lemma_text_rendering<V: FormattableValue>(
    format: &str,
    positional: Seq<V>,
    named: Map<Seq<char>, V>,
)
    requires
        segments_of(format.spec_bytes(), positional, named) is Ok,
        all_text(segments_of(format.spec_bytes(), positional, named)->Ok_0),
    ensures
        encode_utf8(rendered(segments_of(format.spec_bytes(), positional, named)->Ok_0))
            == collapsed(format.spec_bytes()),
        rendered(segments_of(format.spec_bytes(), positional, named)->Ok_0) == decode_utf8(
            collapsed(format.spec_bytes()),
        ),
{
    lemma_str_bytes(format);
    lemma_text_rendering_from(format.spec_bytes(), 0, 0, positional, named);
    assert(format.spec_bytes().skip(0) =~= format.spec_bytes());
    encode_utf8_decode_utf8(rendered(segments_of(format.spec_bytes(), positional, named)->Ok_0));
}

/// Where there is no value to refer to, what is read from `from` on holds
/// no argument.
proof fn lemma_no_values_from<V>(
    s: Seq<u8>,
    from: int,
    next: nat,
    positional: Seq<V>,
    named: Map<Seq<char>, V>,
)
    requires
        positional.len() == 0,
        named.dom() =~= Set::<Seq<char>>::empty(),
        segments_from(s, from, next, positional, named) is Ok,
    ensures
        all_text(segments_from(s, from, next, positional, named)->Ok_0),
    decreases s.len() - from,
{
    let segments = segments_from(s, from, next, positional, named)->Ok_0;
    if from < 0 || from >= s.len() {
    } else if !is_brace(s[from]) || escape_at(s, from) {
        let (end, resume) = text_extent(s, from);
        lemma_text_extent(s, from);
        lemma_no_values_from(s, resume, next, positional, named);
        let rest = segments_from(s, resume, next, positional, named)->Ok_0;
        assert forall|k: int| 0 <= k < segments.len() implies #[trigger] segments[k] is Text by {
            if k > 0 {
                assert(segments[k] == rest[k - 1]);
            }
        }
    } else {
    }
}

/// Where there is no value to refer to, a format string that is read holds
/// no argument: all of its segments are literal text.
pub proof fn lemma_no_values_no_arguments<V>(
    s: Seq<u8>,
    positional: Seq<V>,
    named: Map<Seq<char>, V>,
)
    requires
        positional.len() == 0,
        named.dom() =~= Set::<Seq<char>>::empty(),
        segments_of(s, positional, named) is Ok,
    ensures
        all_text(segments_of(s, positional, named)->Ok_0),
{
    lemma_no_values_from(s, 0, 0, positional, named);
}

/// Every argument that is read from `from` on holds the value that its
/// reference stands for, the counter being `next` and the number of empty
/// references between `from` and the argument.
proof fn lemma_resolved_from<V>(
    s: Seq<u8>,
    from: int,
    next: nat,
    positional: Seq<V>,
    named: Map<Seq<char>, V>,
    k: int,
)
    requires
        segments_from(s, from, next, positional, named) is Ok,
        0 <= k < segments_from(s, from, next, positional, named)->Ok_0.len(),
        segments_from(s, from, next, positional, named)->Ok_0[k] is Argument,
    ensures
        ({
            let segments = segments_from(s, from, next, positional, named)->Ok_0;
            let argument = segments[k]->Argument_0;
            resolve(
                argument.reference,
                next + empty_references(segments.take(k)),
                positional,
                named,
            ) == Some(argument.value)
        }),
    decreases s.len() - from,
{
    let segments = segments_from(s, from, next, positional, named)->Ok_0;
    if from < 0 || from >= s.len() {
    } else if !is_brace(s[from]) || escape_at(s, from) {
        let (end, resume) = text_extent(s, from);
        lemma_text_extent(s, from);
        let rest = segments_from(s, resume, next, positional, named)->Ok_0;
        assert(segments[k] == rest[k - 1]);
        lemma_resolved_from(s, resume, next, positional, named, k - 1);
        assert(segments.take(k).drop_first() =~= rest.take(k - 1));
    } else {
        lemma_argument_extent(s, from);
        let syntax = argument_at(s, from)->Some_0;
        let after = advance(syntax.reference, next);
        let rest = segments_from(s, syntax.end, after, positional, named)->Ok_0;
        if k == 0 {
            assert(segments.take(0) =~= Seq::<SegmentView<V>>::empty());
        } else {
            assert(segments[k] == rest[k - 1]);
            lemma_resolved_from(s, syntax.end, after, positional, named, k - 1);
            assert(segments.take(k).drop_first() =~= rest.take(k - 1));
            assert(segments.take(k)[0] == segments[0]);
        }
    }
}

/// Every argument of a format string that is read holds the value that its
/// reference stands for, the counter of empty references being the number of
/// empty references to the left of the argument.
pub proof fn lemma_arguments_resolved<V>(
    s: Seq<u8>,
    positional: Seq<V>,
    named: Map<Seq<char>, V>,
    k: int,
)
    requires
        segments_of(s, positional, named) is Ok,
        0 <= k < segments_of(s, positional, named)->Ok_0.len(),
        segments_of(s, positional, named)->Ok_0[k] is Argument,
    ensures
        ({
            let segments = segments_of(s, positional, named)->Ok_0;
            let argument = segments[k]->Argument_0;
            resolve(argument.reference, empty_references(segments.take(k)), positional, named)
                == Some(argument.value)
        }),
{
    lemma_resolved_from(s, 0, 0, positional, named, k);
}

/// Empty references take the positional values from left to right: an
/// argument with the empty reference holds the positional value whose index
/// is the number of empty references to its left, whatever else the format
/// string holds.
pub proof fn lemma_implicit_in_order<V>(
    s: Seq<u8>,
    positional: Seq<V>,
    named: Map<Seq<char>, V>,
    k: int,
)
    requires
        segments_of(s, positional, named) is Ok,
        0 <= k < segments_of(s, positional, named)->Ok_0.len(),
        takes_next(segments_of(s, positional, named)->Ok_0[k]),
    ensures
        ({
            let segments = segments_of(s, positional, named)->Ok_0;
            let index = empty_references(segments.take(k));
            index < positional.len() && segments[k]->Argument_0.value == positional[index as int]
        }),
{
    lemma_arguments_resolved(s, positional, named, k);
}

/// An explicit index goes past the counter of empty references: an argument
/// with the reference `index` holds the positional value at `index`,
/// whatever else the format string holds.
pub proof fn lemma_explicit_index<V>(
    s: Seq<u8>,
    positional: Seq<V>,
    named: Map<Seq<char>, V>,
    k: int,
    index: nat,
)
    requires
        segments_of(s, positional, named) is Ok,
        0 <= k < segments_of(s, positional, named)->Ok_0.len(),
        segments_of(s, positional, named)->Ok_0[k] is Argument,
        segments_of(s, positional, named)->Ok_0[k]->Argument_0.reference == Reference::Positional(
            index,
        ),
    ensures
        index < positional.len(),
        segments_of(s, positional, named)->Ok_0[k]->Argument_0.value == positional[index as int],
{
    lemma_arguments_resolved(s, positional, named, k);
}

/// A named argument of a format string that is read holds the value under
/// its key.
pub proof fn lemma_named_key<V>(
    s: Seq<u8>,
    positional: Seq<V>,
    named: Map<Seq<char>, V>,
    k: int,
    key: Seq<char>,
)
    requires
        segments_of(s, positional, named) is Ok,
        0 <= k < segments_of(s, positional, named)->Ok_0.len(),
        segments_of(s, positional, named)->Ok_0[k] is Argument,
        segments_of(s, positional, named)->Ok_0[k]->Argument_0.reference == Reference::Named(key),
    ensures
        named.contains_key(key),
        segments_of(s, positional, named)->Ok_0[k]->Argument_0.value == named[key],
{
    lemma_arguments_resolved(s, positional, named, k);
}

/// A failure of reading from `from` on is located at a brace at or behind
/// `from`, and that brace does not start an escape.
proof fn lemma_failure_from<V>(
    s: Seq<u8>,
    from: int,
    next: nat,
    positional: Seq<V>,
    named: Map<Seq<char>, V>,
)
    requires
        segments_from(s, from, next, positional, named) is Err,
    ensures
        ({
            let offset = segments_from(s, from, next, positional, named)->Err_0;
            from <= offset < s.len() && is_brace(s[offset]) && !escape_at(s, offset)
        }),
    decreases s.len() - from,
{
    if from < 0 || from >= s.len() {
    } else if !is_brace(s[from]) || escape_at(s, from) {
        let (end, resume) = text_extent(s, from);
        lemma_text_extent(s, from);
        lemma_failure_from(s, resume, next, positional, named);
    } else if s[from] == OPEN && argument_at(s, from) is Some && resolve(
        argument_at(s, from)->Some_0.reference,
        next,
        positional,
        named,
    ) is Some {
        lemma_argument_extent(s, from);
        let syntax = argument_at(s, from)->Some_0;
        lemma_failure_from(s, syntax.end, advance(syntax.reference, next), positional, named);
    }
}

/// Every failure is located at a brace of the format string, and that
/// brace does not start an escape.
pub proof fn lemma_failure_at_brace<V>(
    s: Seq<u8>,
    positional: Seq<V>,
    named: Map<Seq<char>, V>,
)
    requires
        segments_of(s, positional, named) is Err,
    ensures
        ({
            let offset = segments_of(s, positional, named)->Err_0;
            0 <= offset < s.len() && is_brace(s[offset]) && !escape_at(s, offset)
        }),
{
    lemma_failure_from(s, 0, 0, positional, named);
}

/// An argument whose reference stands for no value fails at its opening
/// brace, whatever was read before it: an empty reference when the counter
/// is past the last positional value, an index that is out of range, a key
/// that the named values do not hold.
pub proof fn lemma_unresolved_argument<V>(
    s: Seq<u8>,
    open: int,
    next: nat,
    positional: Seq<V>,
    named: Map<Seq<char>, V>,
)
    requires
        0 <= open < s.len(),
        s[open] == OPEN,
        !escape_at(s, open),
        argument_at(s, open) is Some,
        resolve(argument_at(s, open)->Some_0.reference, next, positional, named) is None,
    ensures
        segments_from(s, open, next, positional, named) == Err::<Seq<SegmentView<V>>, int>(open),
{
}

/// An argument whose key the named values do not hold fails at its opening
/// brace; with no named values at all, every named argument does.
pub proof fn lemma_missing_key<V>(
    s: Seq<u8>,
    open: int,
    next: nat,
    positional: Seq<V>,
    named: Map<Seq<char>, V>,
    key: Seq<char>,
)
    requires
        0 <= open < s.len(),
        s[open] == OPEN,
        !escape_at(s, open),
        argument_at(s, open) is Some,
        argument_at(s, open)->Some_0.reference == Reference::Named(key),
        !named.contains_key(key),
    ensures
        segments_from(s, open, next, positional, named) == Err::<Seq<SegmentView<V>>, int>(open),
        segments_from(s, open, next, positional, Map::<Seq<char>, V>::empty()) == Err::<
            Seq<SegmentView<V>>,
            int,
        >(open),
{
    lemma_unresolved_argument(s, open, next, positional, named);
    lemma_unresolved_argument(s, open, next, positional, Map::<Seq<char>, V>::empty());
}

/// Reading is a function of what is read: two readings of equal format
/// strings against equal values are equal, segment by segment.
pub proof fn lemma_parse_deterministic<V: FormattableValue>(
    first: Arguments<V>,
    second: Arguments<V>,
    first_format: &str,
    second_format: &str,
    positional: Seq<V>,
    named: Map<Seq<char>, V>,
)
    requires
        first_format@ == second_format@,
        segments_of(first_format.spec_bytes(), positional, named) == Ok::<
            Seq<SegmentView<V>>,
            int,
        >(first@),
        segments_of(second_format.spec_bytes(), positional, named) == Ok::<
            Seq<SegmentView<V>>,
            int,
        >(second@),
    ensures
        first@ == second@,
        first.segments@.len() == second.segments@.len(),
        forall|k: int|
            0 <= k < first.segments@.len() ==> (#[trigger] first.segments@[k])@
                == second.segments@[k]@,
{
    assert(first@.len() == first.segments@.len());
    assert(second@.len() == second.segments@.len());
    assert forall|k: int| 0 <= k < first.segments@.len() implies (#[trigger] first.segments@[k])@
        == second.segments@[k]@ by {
        assert(first@[k] == first.segments@[k]@);
        assert(second@[k] == second.segments@[k]@);
    }
}

} // verus!
