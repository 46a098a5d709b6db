//! Locating and decoding the end-of-file records: the fixed trailer, the
//! postscript that it points to, and the footer that lists the encodings used
//! by the file.

use vstd::prelude::*;
use crate::text::views;
use vstd::slice::slice_subrange;
use vortex_flatbuffers::footer as fb;

verus! {

/// Length in bytes of the fixed record at the end of a file.
pub const TRAILER_LEN: u64 = 8;

/// The fixed record at the end of a file: `version` and `postscript_length`,
/// both little-endian, followed by the four magic bytes `VTXF`.
#[derive(Clone, Copy, Debug, PartialEq, Eq, Structural)]
pub struct Trailer {
    pub version: u16,
    pub postscript_length: u16,
}

/// Where the footer record lies in the file.
#[derive(Clone, Copy, Debug, PartialEq, Eq, Structural)]
pub struct FooterSegment {
    pub offset: u64,
    pub length: u32,
}

/// The self-describing records that the locator decodes.
#[derive(Clone, Copy, Debug, PartialEq, Eq, Structural)]
pub enum RecordKind {
    Postscript,
    Footer,
}

/// Why the end-of-file records could not be located or decoded.
#[derive(Clone, Copy, Debug, PartialEq, Eq, Structural)]
pub enum FooterError {
    /// The file cannot hold a trailer.
    TooSmall { file_size: u64 },
    /// The last four bytes are not `VTXF`.
    BadMagic,
    /// The trailer announces a postscript of length zero.
    EmptyPostscript,
    /// The postscript and the trailer together are longer than the file.
    PostscriptOverflow { postscript_length: u64, file_size: u64 },
    /// Reading the postscript gave no bytes.
    EmptyPostscriptRead,
    /// The postscript has no footer segment.
    MissingFooterSegment,
    /// The footer segment has length zero.
    EmptyFooter { offset: u64 },
    /// The footer segment ends past the end of the file.
    FooterOverflow { offset: u64, length: u64, file_size: u64 },
    /// Reading the footer gave no bytes.
    EmptyFooterRead,
    /// The bytes do not parse as the record.
    MalformedRecord { record: RecordKind },
}

/// The four magic bytes `VTXF` that end every file.
pub open spec fn magic() -> Seq<u8> {
    seq![0x56u8, 0x54u8, 0x58u8, 0x46u8]
}

/// A 16-bit unsigned integer read little-endian from two bytes.
pub open spec fn le_u16(lo: u8, hi: u8) -> nat {
    lo as nat + 256 * (hi as nat)
}

/// The trailer held in the last eight bytes of `f`, or why there is none.
pub open spec fn trailer_of(f: Seq<u8>) -> Result<Trailer, FooterError> {
    if f.len() < TRAILER_LEN {
        Err(FooterError::TooSmall { file_size: f.len() as u64 })
    } else {
        let t = f.subrange(f.len() - 8, f.len() as int);
        if t.subrange(4, 8) != magic() {
            Err(FooterError::BadMagic)
        } else if le_u16(t[2], t[3]) == 0 {
            Err(FooterError::EmptyPostscript)
        } else {
            Ok(Trailer { version: le_u16(t[0], t[1]) as u16, postscript_length: le_u16(t[2], t[3]) as u16 })
        }
    }
}

/// The range `(offset, length)` of the postscript in a file of `file_size`
/// bytes: it ends where the trailer begins.
pub open spec fn postscript_range_of(t: Trailer, file_size: u64) -> Result<(u64, u64), FooterError> {
    if t.postscript_length + TRAILER_LEN > file_size {
        Err(FooterError::PostscriptOverflow { postscript_length: t.postscript_length as u64, file_size })
    } else {
        Ok(((file_size - TRAILER_LEN - t.postscript_length) as u64, t.postscript_length as u64))
    }
}

/// What the postscript record in `bytes` says of the footer: `None` where the
/// bytes are not a valid postscript, `Some(None)` where it has no footer
/// segment, else the segment's `(offset, length)`.
pub uninterp spec fn postscript_footer_of(bytes: Seq<u8>) -> Option<Option<(u64, u32)>>;

/// The encoding ids of the footer record in `bytes`, array specs first and
/// layout specs second, each in the record's order and `None` where the record
/// leaves that list out; `None` as a whole where the bytes are not a valid
/// footer.
pub uninterp spec fn footer_ids_of(bytes: Seq<u8>) -> Option<(Option<Seq<Seq<char>>>, Option<Seq<Seq<char>>>)>;

/// A list that a record may leave out, read as empty where it does.
pub open spec fn listed(o: Option<Seq<Seq<char>>>) -> Seq<Seq<char>> {
    match o {
        None => Seq::empty(),
        Some(ids) => ids,
    }
}

/// The view of a list that a record may leave out.
pub open spec fn listed_view(o: Option<Vec<String>>) -> Option<Seq<Seq<char>>> {
    match o {
        None => None,
        Some(v) => Some(views(v@)),
    }
}

/// The footer segment that a decoded postscript gives, checked against the
/// size of the file.
pub open spec fn segment_check(decoded: Option<Option<(u64, u32)>>, file_size: u64) -> Result<FooterSegment, FooterError> {
    match decoded {
        None => Err(FooterError::MalformedRecord { record: RecordKind::Postscript }),
        Some(None) => Err(FooterError::MissingFooterSegment),
        Some(Some((offset, length))) => {
            if length == 0 {
                Err(FooterError::EmptyFooter { offset })
            } else if offset + length > file_size {
                Err(FooterError::FooterOverflow { offset, length: length as u64, file_size })
            } else {
                Ok(FooterSegment { offset, length })
            }
        },
    }
}

/// The non-empty ids of `s`, each once, in the order of their first
/// occurrence.
pub open spec fn unique_nonempty(s: Seq<Seq<char>>) -> Seq<Seq<char>>
    decreases s.len(),
{
    if s.len() == 0 {
        Seq::empty()
    } else {
        let d = unique_nonempty(s.drop_last());
        let x = s.last();
        if x.len() == 0 || d.contains(x) {
            d
        } else {
            d.push(x)
        }
    }
}

/// The encoding lists of a decoded footer record.
pub open spec fn footer_lists(decoded: Option<(Option<Seq<Seq<char>>>, Option<Seq<Seq<char>>>)>) -> Result<(Seq<Seq<char>>, Seq<Seq<char>>), FooterError> {
    match decoded {
        None => Err(FooterError::MalformedRecord { record: RecordKind::Footer }),
        Some((a, l)) => Ok((unique_nonempty(listed(a)), unique_nonempty(listed(l)))),
    }
}

/// The view of a pair of encoding lists, or of the error in its place.
pub open spec fn lists_view(r: Result<(Vec<String>, Vec<String>), FooterError>) -> Result<(Seq<Seq<char>>, Seq<Seq<char>>), FooterError> {
    match r {
        Ok((a, l)) => Ok((views(a@), views(l@))),
        Err(e) => Err(e),
    }
}

/// The encoding lists that the end-of-file records of the file `f` give, or
/// the first check that fails on the way to them.
pub open spec fn decoded_file(f: Seq<u8>) -> Result<(Seq<Seq<char>>, Seq<Seq<char>>), FooterError> {
    match trailer_of(f) {
        Err(e) => Err(e),
        Ok(t) => match postscript_range_of(t, f.len() as u64) {
            Err(e) => Err(e),
            Ok((po, pl)) => match segment_check(postscript_footer_of(f.subrange(po as int, po + pl)), f.len() as u64) {
                Err(e) => Err(e),
                Ok(seg) => footer_lists(footer_ids_of(f.subrange(seg.offset as int, seg.offset + seg.length))),
            },
        },
    }
}

/// Reads the trailer from the last eight bytes of `bytes`, which may be the
/// whole file or only its end.
pub fn parse_trailer(bytes: &[u8]) -> (r: Result<Trailer, FooterError>)
    ensures
        r == trailer_of(bytes@),
{
    let n = bytes.len();
    if n < 8 {
        return Err(FooterError::TooSmall { file_size: n as u64 });
    }
    let base = n - 8;
    let ghost t = bytes@.subrange(n - 8, n as int);
    let magic_ok = bytes[base + 4] == 0x56u8 && bytes[base + 5] == 0x54u8 && bytes[base + 6] == 0x58u8
        && bytes[base + 7] == 0x46u8;
    assert(magic_ok <==> t.subrange(4, 8) == magic()) by {
        if magic_ok {
            assert(t.subrange(4, 8) =~= magic());
        }
        if t.subrange(4, 8) == magic() {
            assert(t.subrange(4, 8)[0] == magic()[0]);
            assert(t.subrange(4, 8)[1] == magic()[1]);
            assert(t.subrange(4, 8)[2] == magic()[2]);
            assert(t.subrange(4, 8)[3] == magic()[3]);
        }
    }
    if !magic_ok {
        return Err(FooterError::BadMagic);
    }
    let version = bytes[base] as u16 + (bytes[base + 1] as u16) * 256;
    let postscript_length = bytes[base + 2] as u16 + (bytes[base + 3] as u16) * 256;
    if postscript_length == 0 {
        return Err(FooterError::EmptyPostscript);
    }
    Ok(Trailer { version, postscript_length })
}

/// The range `(offset, length)` of the postscript announced by `trailer` in a
/// file of `file_size` bytes.
pub fn postscript_range(trailer: Trailer, file_size: u64) -> (r: Result<(u64, u64), FooterError>)
    ensures
        r == postscript_range_of(trailer, file_size),
{
    let pl = trailer.postscript_length as u64;
    if file_size < TRAILER_LEN || file_size - TRAILER_LEN < pl {
        return Err(FooterError::PostscriptOverflow { postscript_length: pl, file_size });
    }
    Ok((file_size - TRAILER_LEN - pl, pl))
}

/// The footer segment that a decoded postscript gives (see
/// `postscript_footer_of`), checked against the size of the file.
pub fn footer_segment_from_decoded(decoded: Option<Option<(u64, u32)>>, file_size: u64) -> (r: Result<FooterSegment, FooterError>)
    ensures
        r == segment_check(decoded, file_size),
{
    match decoded {
        None => Err(FooterError::MalformedRecord { record: RecordKind::Postscript }),
        Some(None) => Err(FooterError::MissingFooterSegment),
        Some(Some((offset, length))) => {
            if length == 0 {
                Err(FooterError::EmptyFooter { offset })
            } else if offset > file_size || file_size - offset < length as u64 {
                Err(FooterError::FooterOverflow { offset, length: length as u64, file_size })
            } else {
                Ok(FooterSegment { offset, length })
            }
        },
    }
}

/// Decodes the postscript record read from a file of `file_size` bytes and
/// returns the footer segment that it names.
pub fn footer_segment(postscript: &[u8], file_size: u64) -> (r: Result<FooterSegment, FooterError>)
    ensures
        postscript@.len() == 0 ==> r == Err::<FooterSegment, FooterError>(FooterError::EmptyPostscriptRead),
        postscript@.len() > 0 ==> r == segment_check(postscript_footer_of(postscript@), file_size),
{
    if postscript.len() == 0 {
        return Err(FooterError::EmptyPostscriptRead);
    }
    let decoded = decode_postscript(postscript);
    footer_segment_from_decoded(decoded, file_size)
}

/// Whether `ids` holds a string equal to `x`.
fn contains_id(ids: &Vec<String>, x: &String) -> (r: bool)
    ensures
        r == views(ids@).contains(x@),
{
    let mut i: usize = 0;
    while i < ids.len()
        invariant
            i <= ids@.len(),
            forall|j: int| 0 <= j < i ==> ids@[j]@ != x@,
        decreases ids@.len() - i,
    {
        if ids[i] == *x {
            assert(views(ids@)[i as int] == x@);
            return true;
        }
        i += 1;
    }
    assert(!views(ids@).contains(x@)) by {
        if views(ids@).contains(x@) {
            let j = choose|j: int| 0 <= j < views(ids@).len() && views(ids@)[j] == x@;
            assert(ids@[j]@ == x@);
        }
    }
    false
}

/// The non-empty ids of `ids`, each once, in the order of their first
/// occurrence.
pub fn unique_ids(ids: &Vec<String>) -> (r: Vec<String>)
    ensures
        views(r@) == unique_nonempty(views(ids@)),
{
    let mut out: Vec<String> = Vec::new();
    let mut i: usize = 0;
    while i < ids.len()
        invariant
            i <= ids@.len(),
            views(out@) == unique_nonempty(views(ids@).subrange(0, i as int)),
        decreases ids@.len() - i,
    {
        let ghost prefix = views(ids@).subrange(0, i as int + 1);
        assert(prefix.drop_last() =~= views(ids@).subrange(0, i as int));
        assert(prefix.last() == ids@[i as int]@);
        if !ids[i].as_str().is_empty() && !contains_id(&out, &ids[i]) {
            let ghost before = out@;
            out.push(ids[i].clone());
            assert(views(out@) =~= views(before).push(ids@[i as int]@));
        }
        i += 1;
    }
    assert(views(ids@).subrange(0, ids@.len() as int) =~= views(ids@));
    out
}

/// The unique ids of a list that a record may leave out; none where it does.
fn unique_listed(o: &Option<Vec<String>>) -> (r: Vec<String>)
    ensures
        views(r@) == unique_nonempty(listed(listed_view(*o))),
{
    match o {
        None => {
            let r: Vec<String> = Vec::new();
            assert(views(r@) =~= Seq::<Seq<char>>::empty());
            r
        },
        Some(ids) => unique_ids(ids),
    }
}

/// The encoding lists of a decoded footer record (see `footer_ids_of`): the
/// non-empty ids of each list, each once, in first-seen order; a list that
/// the record leaves out gives none.
pub fn footer_lists_from_decoded(decoded: Option<(Option<Vec<String>>, Option<Vec<String>>)>) -> (r: Result<(Vec<String>, Vec<String>), FooterError>)
    ensures
        lists_view(r) == footer_lists(
            match decoded {
                None => None,
                Some((a, l)) => Some((listed_view(a), listed_view(l))),
            },
        ),
{
    match decoded {
        None => Err(FooterError::MalformedRecord { record: RecordKind::Footer }),
        Some((a, l)) => Ok((unique_listed(&a), unique_listed(&l))),
    }
}

/// Decodes the footer record and returns its array and layout encoding ids,
/// each list without empty ids or repeats, in first-seen order.
pub fn footer_encodings(footer: &[u8]) -> (r: Result<(Vec<String>, Vec<String>), FooterError>)
    ensures
        footer@.len() == 0 ==> r == Err::<(Vec<String>, Vec<String>), FooterError>(FooterError::EmptyFooterRead),
        footer@.len() > 0 ==> lists_view(r) == footer_lists(footer_ids_of(footer@)),
{
    if footer.len() == 0 {
        return Err(FooterError::EmptyFooterRead);
    }
    let decoded = decode_footer(footer);
    footer_lists_from_decoded(decoded)
}

/// Locates the trailer, postscript and footer at the end of the file held in
/// `file` and returns the array and layout encoding ids that the footer lists.
pub fn locate_and_decode(file: &[u8]) -> (r: Result<(Vec<String>, Vec<String>), FooterError>)
    ensures
        lists_view(r) == decoded_file(file@),
{
    let file_size = file.len() as u64;
    let trailer = match parse_trailer(file) {
        Ok(t) => t,
        Err(e) => return Err(e),
    };
    let (po, pl) = match postscript_range(trailer, file_size) {
        Ok(range) => range,
        Err(e) => return Err(e),
    };
    let postscript = slice_subrange(file, po as usize, (po + pl) as usize);
    let segment = match footer_segment(postscript, file_size) {
        Ok(seg) => seg,
        Err(e) => return Err(e),
    };
    let start = segment.offset as usize;
    let footer = slice_subrange(file, start, start + segment.length as usize);
    footer_encodings(footer)
}

/// A file shorter than the trailer is refused as too small, before any byte
/// of it is read.
pub proof fn short_file_is_too_small(f: Seq<u8>)
    requires
        f.len() < TRAILER_LEN,
    ensures
        decoded_file(f) == Err::<(Seq<Seq<char>>, Seq<Seq<char>>), FooterError>(FooterError::TooSmall { file_size: f.len() as u64 }),
{
}

/// A file of at least eight bytes whose last four bytes are not `VTXF` is
/// refused for its magic.
pub proof fn bad_magic_is_refused(f: Seq<u8>)
    requires
        f.len() >= TRAILER_LEN,
        f.subrange(f.len() - 4, f.len() as int) != magic(),
    ensures
        decoded_file(f) == Err::<(Seq<Seq<char>>, Seq<Seq<char>>), FooterError>(FooterError::BadMagic),
{
    let t = f.subrange(f.len() - 8, f.len() as int);
    assert(t.subrange(4, 8) =~= f.subrange(f.len() - 4, f.len() as int));
}

/// A trailer whose postscript would not fit in the file together with the
/// trailer is refused as an overflow, and nothing before the trailer is read.
pub proof fn postscript_overflow_is_refused(f: Seq<u8>)
    requires
        f.len() >= TRAILER_LEN,
        f.subrange(f.len() - 4, f.len() as int) == magic(),
        le_u16(f[f.len() - 6], f[f.len() - 5]) + TRAILER_LEN > f.len(),
    ensures
        decoded_file(f) == Err::<(Seq<Seq<char>>, Seq<Seq<char>>), FooterError>(FooterError::PostscriptOverflow {
            postscript_length: le_u16(f[f.len() - 6], f[f.len() - 5]) as u64,
            file_size: f.len() as u64,
        }),
{
    let t = f.subrange(f.len() - 8, f.len() as int);
    assert(t.subrange(4, 8) =~= f.subrange(f.len() - 4, f.len() as int));
    assert(t[2] == f[f.len() - 6] && t[3] == f[f.len() - 5]);
}

/// A file laid out as data, footer, postscript and trailer, where the
/// trailer announces the postscript and the postscript names the footer's
/// segment, decodes to the footer's encoding ids, each list without empty
/// ids or repeats, in first-seen order, and empty where the footer leaves it
/// out.
pub proof fn laid_out_file_decodes(
    f: Seq<u8>,
    offset: u64,
    length: u32,
    arrays: Option<Seq<Seq<char>>>,
    layouts: Option<Seq<Seq<char>>>,
)
    requires
        f.len() >= TRAILER_LEN,
        f.len() <= u64::MAX,
        f.subrange(f.len() - 4, f.len() as int) == magic(),
        le_u16(f[f.len() - 6], f[f.len() - 5]) > 0,
        le_u16(f[f.len() - 6], f[f.len() - 5]) + TRAILER_LEN <= f.len(),
        postscript_footer_of(f.subrange(f.len() - TRAILER_LEN - le_u16(f[f.len() - 6], f[f.len() - 5]), f.len() - TRAILER_LEN))
            == Some(Some((offset, length))),
        length > 0,
        offset + length <= f.len(),
        footer_ids_of(f.subrange(offset as int, offset + length)) == Some((arrays, layouts)),
    ensures
        decoded_file(f) == Ok::<(Seq<Seq<char>>, Seq<Seq<char>>), FooterError>((unique_nonempty(listed(arrays)), unique_nonempty(listed(layouts)))),
{
    let t = f.subrange(f.len() - 8, f.len() as int);
    assert(t.subrange(4, 8) =~= f.subrange(f.len() - 4, f.len() as int));
    assert(t[2] == f[f.len() - 6] && t[3] == f[f.len() - 5]);
}

/// Wherever `b` occurs in `s`, `a` has occurred before.
pub open spec fn first_seen_before(s: Seq<Seq<char>>, a: Seq<char>, b: Seq<char>) -> bool {
    forall|q: int| 0 <= q < s.len() && #[trigger] s[q] == b ==> exists|p: int| 0 <= p < q && s[p] == a
}

/// The list of unique ids holds no empty id and no id twice; it holds
/// exactly the non-empty ids of the input; and its ids come in the order of
/// their first occurrence: wherever a later id occurs in the input, an
/// earlier one has occurred before.
pub proof fn unique_ids_are_first_seen(s: Seq<Seq<char>>)
    ensures
        forall|i: int| 0 <= i < unique_nonempty(s).len() ==> #[trigger] unique_nonempty(s)[i].len() > 0,
        forall|i: int, j: int|
            0 <= i < j < unique_nonempty(s).len() ==> #[trigger] unique_nonempty(s)[i] != #[trigger] unique_nonempty(s)[j],
        forall|x: Seq<char>| #[trigger] unique_nonempty(s).contains(x) <==> (x.len() > 0 && s.contains(x)),
        forall|i: int, j: int|
            0 <= i < j < unique_nonempty(s).len() ==> first_seen_before(s, #[trigger] unique_nonempty(s)[i], #[trigger] unique_nonempty(s)[j]),
    decreases s.len(),
{
    if s.len() == 0 {
        assert(unique_nonempty(s).len() == 0);
    } else {
        let s0 = s.drop_last();
        let x = s.last();
        unique_ids_are_first_seen(s0);
        let d = unique_nonempty(s0);
        let r = unique_nonempty(s);
        assert forall|y: Seq<char>| r.contains(y) <==> (y.len() > 0 && s.contains(y)) by {
            if s.contains(y) {
                let k = choose|k: int| 0 <= k < s.len() && s[k] == y;
                if k < s.len() - 1 {
                    assert(s0[k] == y);
                }
            }
            if s0.contains(y) {
                let k = choose|k: int| 0 <= k < s0.len() && s0[k] == y;
                assert(s[k] == y);
            }
            if r.contains(y) && !d.contains(y) {
                assert(r == d.push(x));
                let k = choose|k: int| 0 <= k < r.len() && r[k] == y;
                assert(k == d.len());
                assert(s[s.len() - 1] == y);
            }
            if !(x.len() == 0 || d.contains(x)) {
                assert(r == d.push(x));
                if d.contains(y) {
                    let k = choose|k: int| 0 <= k < d.len() && d[k] == y;
                    assert(r[k] == y);
                }
                if y == x {
                    assert(r[d.len() as int] == y);
                }
            }
        }
        assert forall|i: int, j: int|
            0 <= i < j < r.len() implies first_seen_before(s, #[trigger] r[i], #[trigger] r[j]) by {
            assert forall|q: int|
                0 <= q < s.len() && #[trigger] s[q] == r[j] implies exists|p: int| 0 <= p < q && s[p] == r[i] by {
                if r == d.push(x) {
                    assert(r[i] == d[i]);
                } else {
                    assert(r == d);
                }
                assert(r[i] == d[i]);
                assert(d.contains(d[i]));
                assert(s0.contains(d[i]));
                let p0 = choose|p: int| 0 <= p < s0.len() && s0[p] == d[i];
                assert(s[p0] == r[i]);
                if j < d.len() {
                    assert(r[j] == d[j]);
                    if q < s.len() - 1 {
                        assert(s0[q] == d[j]);
                        let p = choose|p: int| 0 <= p < q && s0[p] == d[i];
                        assert(s[p] == r[i]);
                    } else {
                        assert(p0 < q);
                    }
                } else {
                    assert(r == d.push(x));
                    assert(r[j] == x);
                    if q < s.len() - 1 {
                        assert(s0[q] == x);
                        assert(s0.contains(x));
                        assert(false);
                    }
                    assert(p0 < q);
                }
            }
        }
        assert forall|i: int| 0 <= i < r.len() implies #[trigger] r[i].len() > 0 by {
            if i < d.len() {
                assert(r[i] == d[i]);
            }
        }
        assert forall|i: int, j: int| 0 <= i < j < r.len() implies #[trigger] r[i] != #[trigger] r[j] by {
            if j >= d.len() {
                assert(r[i] == d[i]);
                assert(d.contains(d[i]));
            } else {
                assert(r[i] == d[i] && r[j] == d[j]);
            }
        }
    }
}

/// Relies on `flatbuffers::root`, which verifies the buffer before it is read,
/// for `vortex_flatbuffers::footer::Postscript`, and on the generated
/// accessors `footer`, `offset` and `length` of that record.
#[verifier::external_body]
fn decode_postscript(bytes: &[u8]) -> (r: Option<Option<(u64, u32)>>)
    ensures
        r == postscript_footer_of(bytes@),
{
    match flatbuffers::root::<fb::Postscript>(bytes) {
        Ok(ps) => Some(ps.footer().map(|seg| (seg.offset(), seg.length()))),
        Err(_) => None,
    }
}

/// Relies on `flatbuffers::root`, which verifies the buffer before it is read,
/// for `vortex_flatbuffers::footer::Footer`, and on the generated accessors
/// `array_specs`, `layout_specs` and `id`.
#[verifier::external_body]
fn decode_footer(bytes: &[u8]) -> (r: Option<(Option<Vec<String>>, Option<Vec<String>>)>)
    ensures
        match r {
            None => footer_ids_of(bytes@) is None,
            Some((a, l)) => footer_ids_of(bytes@) == Some((listed_view(a), listed_view(l))),
        },
{
    match flatbuffers::root::<fb::Footer>(bytes) {
        Ok(f) => Some((
            f.array_specs().map(|v| v.iter().map(|s| s.id().to_string()).collect()),
            f.layout_specs().map(|v| v.iter().map(|s| s.id().to_string()).collect()),
        )),
        Err(_) => None,
    }
}

} // verus!
