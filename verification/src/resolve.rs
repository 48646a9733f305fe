//! Conversion of entities from UTF-16 spans into UTF-8 byte ranges of the
//! message text, in one pass over the text.

use crate::entity::{MessageEntity, MessageEntityKind};
use crate::offsets::{
    byte_boundary_at, byte_offset, char_count, char_index, is_boundary, is_byte_boundary,
    lemma_ascii_positions, lemma_boundary_bound, lemma_boundary_unique,
    lemma_byte_boundary_unique, lemma_encoding_injective, lemma_encoding_split,
    lemma_len_increasing, lemma_len_step, lemma_len_subrange, lemma_not_boundary,
    lemma_offsets_increasing, lemma_offsets_ordered, lemma_prefix_le, lemma_utf16_le_utf8,
    lemma_utf8_len_encoded, utf16_len, utf8_len,
};
use crate::worklist::{ascending, lemma_same_members, sort_by_position, CutPoint};
use vstd::prelude::*;
use vstd::std_specs::iter::IteratorSpec;
use vstd::string::StringSliceAdditionalSpecFns;
use vstd::utf8::{encode_utf8, is_ascii_chars, is_char_boundary};

verus! {

/// A start or an end of some entity does not fall between two characters of
/// the text: it splits a surrogate pair or lies past the end.
#[derive(Clone, Copy, Debug, PartialEq, Eq)]
pub struct InvalidOffset;

/// Both ends of the entity's span fall between characters of `s`.
pub open spec fn valid_span(s: Seq<char>, e: MessageEntity) -> bool {
    is_boundary(s, e.offset as int) && is_boundary(s, e.offset + e.length)
}

/// The UTF-16 position of the cut point is the matching end of its entity.
pub open spec fn cut_of(entities: Seq<MessageEntity>, c: CutPoint) -> bool {
    &&& c.entity < entities.len()
    &&& c.position == if c.is_end {
        entities[c.entity as int].offset + entities[c.entity as int].length
    } else {
        entities[c.entity as int].offset as int
    }
}

/// The cut point at the start of the `i`-th entity.
pub open spec fn start_cut(entities: Seq<MessageEntity>, i: int) -> CutPoint {
    CutPoint { position: entities[i].offset, entity: i as usize, is_end: false }
}

/// The cut point at the end of the `i`-th entity.
pub open spec fn end_cut(entities: Seq<MessageEntity>, i: int) -> CutPoint {
    CutPoint {
        position: (entities[i].offset + entities[i].length) as usize,
        entity: i as usize,
        is_end: true,
    }
}

/// The byte position recorded for the cut point is the one that matches its
/// UTF-16 position.
pub open spec fn patched(s: Seq<char>, c: CutPoint, starts: Seq<usize>, ends: Seq<usize>) -> bool {
    &&& c.entity < starts.len()
    &&& c.entity < ends.len()
    &&& byte_offset(s, c.position as int) == if c.is_end {
        ends[c.entity as int]
    } else {
        starts[c.entity as int]
    }
}

/// The start cut and the end cut of every entity, in the order of the
/// entities; `None` when some end exceeds the machine's range.
fn collect_cuts(entities: &[MessageEntity]) -> (res: Option<Vec<CutPoint>>)
    ensures
        res is Some <==> forall|i: int|
            0 <= i < entities@.len() ==> (#[trigger] entities@[i]).offset + entities@[i].length
                <= usize::MAX,
        res matches Some(cuts) ==> {
            &&& forall|j: int| 0 <= j < cuts@.len() ==> cut_of(entities@, #[trigger] cuts@[j])
            &&& forall|i: int|
                0 <= i < entities@.len() ==> cuts@.contains(#[trigger] start_cut(entities@, i))
                    && cuts@.contains(end_cut(entities@, i))
        },
{
    let n: usize = entities.len();
    let mut cuts: Vec<CutPoint> = Vec::new();
    let mut i: usize = 0;
    while i < n
        invariant
            n == entities@.len(),
            i <= n,
            forall|j: int|
                0 <= j < i ==> (#[trigger] entities@[j]).offset + entities@[j].length
                    <= usize::MAX,
            forall|j: int| 0 <= j < cuts@.len() ==> cut_of(entities@, #[trigger] cuts@[j]),
            forall|j: int|
                0 <= j < i ==> cuts@.contains(#[trigger] start_cut(entities@, j))
                    && cuts@.contains(end_cut(entities@, j)),
        decreases n - i,
    {
        let start: usize = entities[i].offset;
        match start.checked_add(entities[i].length) {
            None => {
                return None;
            },
            Some(end) => {
                let ghost before = cuts@;
                cuts.push(CutPoint { position: start, entity: i, is_end: false });
                cuts.push(CutPoint { position: end, entity: i, is_end: true });
                proof {
                    let len = before.len() as int;
                    assert(cuts@[len] == start_cut(entities@, i as int));
                    assert(cuts@[len + 1] == end_cut(entities@, i as int));
                    assert forall|j: int| 0 <= j < i implies cuts@.contains(
                        #[trigger] start_cut(entities@, j),
                    ) && cuts@.contains(end_cut(entities@, j)) by {
                        let a = choose|a: int|
                            0 <= a < before.len() && before[a] == start_cut(entities@, j);
                        let b = choose|b: int|
                            0 <= b < before.len() && before[b] == end_cut(entities@, j);
                        assert(cuts@[a] == before[a]);
                        assert(cuts@[b] == before[b]);
                    }
                }
            },
        }
        i += 1;
    }
    Some(cuts)
}

/// Walks the text once and records, for every cut point, the byte position
/// that matches its UTF-16 position. Fails as soon as the walk passes a cut
/// point without meeting it, or ends before reaching one.
fn patch(text: &str, cuts: &Vec<CutPoint>, n: usize) -> (res: Option<(Vec<usize>, Vec<usize>)>)
    requires
        ascending(cuts@),
        forall|i: int| 0 <= i < cuts@.len() ==> (#[trigger] cuts@[i]).entity < n,
        forall|i: int, j: int|
            0 <= i < cuts@.len() && 0 <= j < cuts@.len() && (#[trigger] cuts@[i]).entity == (
            #[trigger] cuts@[j]).entity && cuts@[i].is_end == cuts@[j].is_end ==> cuts@[i].position
                == cuts@[j].position,
    ensures
        res is Some <==> forall|i: int|
            0 <= i < cuts@.len() ==> is_boundary(text@, (#[trigger] cuts@[i]).position as int),
        res matches Some((starts, ends)) ==> {
            &&& starts@.len() == n
            &&& ends@.len() == n
            &&& forall|i: int|
                0 <= i < cuts@.len() ==> patched(text@, #[trigger] cuts@[i], starts@, ends@)
        },
{
    let mut starts: Vec<usize> = Vec::new();
    let mut ends: Vec<usize> = Vec::new();
    let mut i: usize = 0;
    while i < n
        invariant
            i <= n,
            starts@.len() == i,
            ends@.len() == i,
        decreases n - i,
    {
        starts.push(0);
        ends.push(0);
        i += 1;
    }
    let total: usize = text.as_bytes().len();
    proof {
        lemma_utf8_len_encoded(text@);
    }
    let mut chars = text.chars();
    let mut len_utf8: usize = 0;
    let mut len_utf16: usize = 0;
    let mut next: usize = 0;
    let ghost mut k: int = 0;
    loop
        invariant
            ascending(cuts@),
            forall|i: int| 0 <= i < cuts@.len() ==> (#[trigger] cuts@[i]).entity < n,
            forall|i: int, j: int|
                0 <= i < cuts@.len() && 0 <= j < cuts@.len() && (#[trigger] cuts@[i]).entity == (
                #[trigger] cuts@[j]).entity && cuts@[i].is_end == cuts@[j].is_end
                    ==> cuts@[i].position == cuts@[j].position,
            utf8_len(text@) == total,
            0 <= k <= text@.len(),
            chars.remaining() == text@.skip(k),
            len_utf8 == utf8_len(text@.take(k)),
            len_utf16 == utf16_len(text@.take(k)),
            next <= cuts@.len(),
            starts@.len() == n,
            ends@.len() == n,
            forall|i: int|
                0 <= i < next ==> is_boundary(text@, (#[trigger] cuts@[i]).position as int)
                    && patched(text@, cuts@[i], starts@, ends@),
            next < cuts@.len() ==> cuts@[next as int].position >= len_utf16,
        decreases text@.len() - k,
    {
        while next < cuts.len() && cuts[next].position == len_utf16
            invariant
                ascending(cuts@),
                next < cuts@.len() ==> cuts@[next as int].position >= len_utf16,
                forall|i: int| 0 <= i < cuts@.len() ==> (#[trigger] cuts@[i]).entity < n,
                forall|i: int, j: int|
                    0 <= i < cuts@.len() && 0 <= j < cuts@.len() && (#[trigger] cuts@[i]).entity
                        == (#[trigger] cuts@[j]).entity && cuts@[i].is_end == cuts@[j].is_end
                        ==> cuts@[i].position == cuts@[j].position,
                0 <= k <= text@.len(),
                len_utf8 == utf8_len(text@.take(k)),
                len_utf16 == utf16_len(text@.take(k)),
                next <= cuts@.len(),
                starts@.len() == n,
                ends@.len() == n,
                forall|i: int|
                    0 <= i < next ==> is_boundary(text@, (#[trigger] cuts@[i]).position as int)
                        && patched(text@, cuts@[i], starts@, ends@),
            decreases cuts@.len() - next,
        {
            let cut: CutPoint = cuts[next];
            proof {
                lemma_boundary_unique(text@, k, len_utf16 as int);
            }
            if cut.is_end {
                ends.set(cut.entity, len_utf8);
            } else {
                starts.set(cut.entity, len_utf8);
            }
            next += 1;
        }
        if next == cuts.len() {
            return Some((starts, ends));
        }
        let pending: usize = cuts[next].position;
        match chars.next() {
            None => {
                proof {
                    assert(k == text@.len());
                    lemma_not_boundary(text@, k, pending as int);
                }
                return None;
            },
            Some(c) => {
                proof {
                    assert(c == text@[k]);
                    lemma_len_step(text@, k);
                    lemma_prefix_le(text@, k + 1);
                    lemma_utf16_le_utf8(text@.take(k + 1));
                }
                len_utf8 = len_utf8 + c.len_utf8();
                len_utf16 = len_utf16 + c.len_utf16();
                if pending < len_utf16 {
                    proof {
                        lemma_not_boundary(text@, k, pending as int);
                    }
                    return None;
                }
                proof {
                    assert(text@.skip(k).drop_first() =~= text@.skip(k + 1));
                    k = k + 1;
                }
            },
        }
    }
}

/// An entity whose span has been converted to UTF-8 bytes, together with the
/// message text that it belongs to.
///
/// Both ends of the byte range fall between characters of the text, so the
/// range can be used to slice it.
#[derive(Debug, PartialEq, Eq, Hash)]
pub struct MessageEntityRef<'a> {
    message: &'a str,
    start: usize,
    end: usize,
    kind: &'a MessageEntityKind,
}

/// `r` is the entity `e` over the text `s`, with the ends of its span
/// converted from UTF-16 code units to UTF-8 bytes.
pub open spec fn resolves(s: Seq<char>, e: MessageEntity, r: MessageEntityRef) -> bool {
    &&& r.spec_message() == s
    &&& r.spec_kind() == e.kind
    &&& r.spec_start() == byte_offset(s, e.offset as int)
    &&& r.spec_end() == byte_offset(s, e.offset + e.length)
}

impl<'a> Clone for MessageEntityRef<'a> {
    fn clone(&self) -> (res: Self)
        ensures
            res == *self,
    {
        proof {
            use_type_invariant(self);
        }
        MessageEntityRef {
            message: self.message,
            start: self.start,
            end: self.end,
            kind: self.kind,
        }
    }
}

impl<'a> MessageEntityRef<'a> {
    #[verifier::type_invariant]
    closed spec fn wf(self) -> bool {
        &&& self.start <= self.end
        &&& is_byte_boundary(self.message@, self.start as int)
        &&& is_byte_boundary(self.message@, self.end as int)
    }

    /// The characters of the whole message.
    pub closed spec fn spec_message(&self) -> Seq<char> {
        self.message@
    }

    /// The kind of the entity.
    pub closed spec fn spec_kind(&self) -> MessageEntityKind {
        *self.kind
    }

    /// Byte position in the message at which the entity starts.
    pub closed spec fn spec_start(&self) -> int {
        self.start as int
    }

    /// Byte position in the message at which the entity ends.
    pub closed spec fn spec_end(&self) -> int {
        self.end as int
    }

    /// The characters of the message that the entity covers.
    pub open spec fn spec_text(&self) -> Seq<char> {
        self.spec_message().subrange(
            char_count(self.spec_message(), self.spec_start()),
            char_count(self.spec_message(), self.spec_end()),
        )
    }

    /// Returns kind of this entity.
    pub fn kind(&self) -> (res: &'a MessageEntityKind)
        ensures
            *res == self.spec_kind(),
    {
        self.kind
    }

    /// Returns the text that this entity is related to.
    pub fn text(&self) -> (res: &'a str)
        ensures
            res@ == self.spec_text(),
            res.spec_bytes() == self.message_bytes().subrange(self.spec_start(), self.spec_end()),
    {
        let ghost s = self.message@;
        let ghost i = char_count(s, self.start as int);
        let ghost j = char_count(s, self.end as int);
        proof {
            use_type_invariant(self);
            assert(byte_boundary_at(s, i, self.start as int));
            assert(byte_boundary_at(s, j, self.end as int));
            if j < i {
                lemma_len_increasing(s, j, i);
            }
            lemma_encoding_split(s, j);
        }
        let (head, _) = self.message.split_at(self.end);
        proof {
            lemma_encoding_injective(head@, s.take(j));
            assert(s.take(j).take(i) =~= s.take(i));
            lemma_encoding_split(s.take(j), i);
        }
        let (_, body) = head.split_at(self.start);
        proof {
            assert(s.take(j).skip(i) =~= s.subrange(i, j));
            lemma_encoding_injective(body@, s.subrange(i, j));
            assert(body.spec_bytes() =~= encode_utf8(s).subrange(
                self.start as int,
                self.end as int,
            ));
        }
        body
    }

    /// The UTF-8 bytes of the whole message.
    pub open spec fn message_bytes(&self) -> Seq<u8> {
        encode_utf8(self.spec_message())
    }

    /// Returns range that this entity is related to.
    ///
    /// The range is in bytes for UTF-8 encoding, so it can be used with
    /// common strings.
    pub fn range(&self) -> (res: core::ops::Range<usize>)
        ensures
            res.start == self.spec_start(),
            res.end == self.spec_end(),
    {
        core::ops::Range { start: self.start, end: self.end }
    }

    /// Returns the offset (in bytes, for UTF-8) to the start of this entity in
    /// the message.
    pub fn start(&self) -> (res: usize)
        ensures
            res == self.spec_start(),
            res <= self.spec_end(),
            is_char_boundary(self.message_bytes(), res as int),
    {
        proof {
            use_type_invariant(self);
            lemma_encoding_split(self.message@, char_count(self.message@, self.start as int));
        }
        self.start
    }

    /// Returns the offset (in bytes, for UTF-8) to the end of this entity in
    /// the message.
    pub fn end(&self) -> (res: usize)
        ensures
            res == self.spec_end(),
            self.spec_start() <= res <= self.message_bytes().len(),
            is_char_boundary(self.message_bytes(), res as int),
    {
        proof {
            use_type_invariant(self);
            lemma_encoding_split(self.message@, char_count(self.message@, self.end as int));
        }
        self.end
    }

    /// Returns the length of this entity in bytes for UTF-8 encoding.
    pub fn len(&self) -> (res: usize)
        ensures
            res == self.spec_end() - self.spec_start(),
    {
        proof {
            use_type_invariant(self);
        }
        self.end - self.start
    }

    /// Returns the full text of the message.
    pub fn message_text(&self) -> (res: &'a str)
        ensures
            res@ == self.spec_message(),
    {
        self.message
    }

    /// Converts the entities of `text` from UTF-16 spans to UTF-8 byte ranges,
    /// keeping their order.
    ///
    /// Fails, without a partial result, when a start or an end of some entity
    /// does not fall between two characters of `text`.
    pub fn parse(text: &'a str, entities: &'a [MessageEntity]) -> (res: Result<
        Vec<MessageEntityRef<'a>>,
        InvalidOffset,
    >)
        ensures
            res is Ok <==> forall|i: int|
                0 <= i < entities@.len() ==> valid_span(text@, #[trigger] entities@[i]),
            res matches Ok(refs) ==> {
                &&& refs@.len() == entities@.len()
                &&& forall|i: int|
                    0 <= i < refs@.len() ==> resolves(text@, entities@[i], #[trigger] refs@[i])
            },
    {
        let n: usize = entities.len();
        let total: usize = text.as_bytes().len();
        proof {
            lemma_utf8_len_encoded(text@);
            lemma_utf16_le_utf8(text@);
        }
        let mut cuts: Vec<CutPoint> = match collect_cuts(entities) {
            None => {
                proof {
                    let i = choose|i: int|
                        0 <= i < entities@.len() && (#[trigger] entities@[i]).offset
                            + entities@[i].length > usize::MAX;
                    if valid_span(text@, entities@[i]) {
                        lemma_boundary_bound(text@, entities@[i].offset + entities@[i].length);
                    }
                }
                return Err(InvalidOffset);
            },
            Some(cuts) => cuts,
        };
        let ghost collected = cuts@;
        sort_by_position(&mut cuts);
        proof {
            lemma_same_members(cuts@, collected);
            assert forall|j: int| 0 <= j < cuts@.len() implies cut_of(
                entities@,
                #[trigger] cuts@[j],
            ) by {
                assert(cuts@.contains(cuts@[j]));
                assert(collected.contains(cuts@[j]));
            }
        }
        match patch(text, &cuts, n) {
            None => {
                proof {
                    let j = choose|j: int|
                        0 <= j < cuts@.len() && !is_boundary(
                            text@,
                            (#[trigger] cuts@[j]).position as int,
                        );
                    assert(cut_of(entities@, cuts@[j]));
                    assert(!valid_span(text@, entities@[cuts@[j].entity as int]));
                }
                Err(InvalidOffset)
            },
            Some((starts, ends)) => {
                proof {
                    assert forall|i: int| 0 <= i < n implies valid_span(
                        text@,
                        #[trigger] entities@[i],
                    ) && starts@[i] == byte_offset(text@, entities@[i].offset as int) && ends@[i]
                        == byte_offset(text@, entities@[i].offset + entities@[i].length) by {
                        let a = start_cut(entities@, i);
                        let b = end_cut(entities@, i);
                        assert(collected.contains(a));
                        assert(collected.contains(b));
                        assert(cuts@.contains(a));
                        assert(cuts@.contains(b));
                        let ia = choose|ia: int| 0 <= ia < cuts@.len() && cuts@[ia] == a;
                        let ib = choose|ib: int| 0 <= ib < cuts@.len() && cuts@[ib] == b;
                        assert(patched(text@, cuts@[ia], starts@, ends@));
                        assert(patched(text@, cuts@[ib], starts@, ends@));
                    }
                }
                let mut refs: Vec<MessageEntityRef<'a>> = Vec::new();
                let mut i: usize = 0;
                while i < n
                    invariant
                        i <= n,
                        n == entities@.len(),
                        refs@.len() == i,
                        starts@.len() == n,
                        ends@.len() == n,
                        forall|j: int|
                            0 <= j < n ==> valid_span(text@, #[trigger] entities@[j]) && starts@[j]
                                == byte_offset(text@, entities@[j].offset as int) && ends@[j]
                                == byte_offset(text@, entities@[j].offset + entities@[j].length),
                        forall|j: int|
                            0 <= j < i ==> resolves(text@, entities@[j], #[trigger] refs@[j]),
                    decreases n - i,
                {
                    proof {
                        let e = entities@[i as int];
                        lemma_offsets_ordered(text@, e.offset as int, e.offset + e.length);
                    }
                    let resolved = MessageEntityRef {
                        message: text,
                        start: starts[i],
                        end: ends[i],
                        kind: &entities[i].kind,
                    };
                    refs.push(resolved);
                    i += 1;
                }
                Ok(refs)
            },
        }
    }
}

/// The byte range of a resolved entity lies within the text, and both of its
/// ends are character boundaries of the text's UTF-8 encoding: slicing the
/// text there splits no character.
pub proof fn lemma_resolved_aligned(text: Seq<char>, e: MessageEntity, r: MessageEntityRef)
    requires
        valid_span(text, e),
        resolves(text, e, r),
    ensures
        0 <= r.spec_start() <= r.spec_end() <= encode_utf8(text).len(),
        is_char_boundary(encode_utf8(text), r.spec_start()),
        is_char_boundary(encode_utf8(text), r.spec_end()),
{
    lemma_offsets_ordered(text, e.offset as int, e.offset + e.length);
    lemma_encoding_split(text, char_index(text, e.offset as int));
    lemma_encoding_split(text, char_index(text, e.offset + e.length));
}

/// The text of a resolved entity is made of exactly the characters between
/// the two ends of the declared span: they take as many UTF-16 code units as
/// the entity's length says, and their UTF-8 encoding is as long as the
/// resolved byte range.
pub proof fn lemma_resolved_text(text: Seq<char>, e: MessageEntity, r: MessageEntityRef)
    requires
        valid_span(text, e),
        resolves(text, e, r),
    ensures
        r.spec_text() == text.subrange(
            char_index(text, e.offset as int),
            char_index(text, e.offset + e.length),
        ),
        utf16_len(r.spec_text()) == e.length,
        encode_utf8(r.spec_text()).len() == r.spec_end() - r.spec_start(),
{
    let i = char_index(text, e.offset as int);
    let j = char_index(text, e.offset + e.length);
    lemma_offsets_ordered(text, e.offset as int, e.offset + e.length);
    lemma_byte_boundary_unique(text, i, r.spec_start());
    lemma_byte_boundary_unique(text, j, r.spec_end());
    lemma_len_subrange(text, i, j);
    lemma_utf8_len_encoded(text.subrange(i, j));
}

/// Entities whose spans overlap in UTF-16 code units resolve to byte ranges
/// that overlap too: each keeps its own range, whatever the other covers.
pub proof fn lemma_overlap_preserved(
    text: Seq<char>,
    e1: MessageEntity,
    e2: MessageEntity,
    r1: MessageEntityRef,
    r2: MessageEntityRef,
)
    requires
        valid_span(text, e1),
        valid_span(text, e2),
        resolves(text, e1, r1),
        resolves(text, e2, r2),
        e1.offset < e2.offset + e2.length,
        e2.offset < e1.offset + e1.length,
    ensures
        r1.spec_start() < r2.spec_end(),
        r2.spec_start() < r1.spec_end(),
{
    lemma_offsets_increasing(text, e1.offset as int, e2.offset + e2.length);
    lemma_offsets_increasing(text, e2.offset as int, e1.offset + e1.length);
}

/// In a text of ASCII characters alone every span within the text is valid,
/// and the resolved byte range has the same numbers as the declared span.
pub proof fn lemma_ascii_identity(text: Seq<char>, e: MessageEntity, r: MessageEntityRef)
    requires
        is_ascii_chars(text),
        e.offset + e.length <= text.len(),
        resolves(text, e, r),
    ensures
        valid_span(text, e),
        r.spec_start() == e.offset,
        r.spec_end() == e.offset + e.length,
{
    lemma_ascii_positions(text, e.offset as int);
    lemma_ascii_positions(text, e.offset + e.length);
}

} // verus!
