//! Ratings and tags written into image metadata through the `little_exif`
//! crate: the raw tag values are read out of the metadata, and the values
//! that a rating or tag edit sets are written into it.

use vstd::prelude::*;
use little_exif::endian::Endian;
use little_exif::exif_tag::ExifTag;
use little_exif::filetype::FileExtension;
use little_exif::ifd::ExifTagGroup;
use little_exif::metadata::Metadata;
use vstd::multiset::Multiset;
use vstd::utf8::encode_utf8;
use crate::filter::{merged_tags, normalized};
use crate::rating::{
    comment_bytes, lemma_comment_round_trip, mark_tags, opt_bytes, percent_for, percent_of, tag_write, tags_in,
    MetaTags, TagWrite,
};

verus! {

#[verifier::external_type_specification]
#[verifier::external_body]
pub struct ExMetadata(Metadata);

#[verifier::external_type_specification]
#[verifier::external_body]
pub struct ExFileExtension(FileExtension);

/// The tags that metadata holds, in the order in which
/// `Metadata::get_tag_by_hex` visits them (directory after directory, each
/// directory's tags in its order): each as its number and its value as
/// `ExifTag::value_as_u8_vec` gives it in the metadata's byte order.
pub uninterp spec fn exif_entries(m: Metadata) -> Seq<(u16, Seq<u8>)>;

/// Whether metadata is little-endian (what `Metadata::get_endian` gives).
pub uninterp spec fn exif_little_endian(m: Metadata) -> bool;

/// The value of the first entry with this tag number, if there is one.
pub open spec fn first_value(es: Seq<(u16, Seq<u8>)>, hex: u16) -> Option<Seq<u8>>
    decreases es.len(),
{
    if es.len() == 0 {
        None
    } else if es[0].0 == hex {
        Some(es[0].1)
    } else {
        first_value(es.drop_first(), hex)
    }
}

/// A 16-bit value as two bytes in the given byte order.
pub open spec fn u16_bytes(v: u16, little: bool) -> Seq<u8> {
    if little {
        seq![(v % 256) as u8, (v / 256) as u8]
    } else {
        seq![(v / 256) as u8, (v % 256) as u8]
    }
}

/// 16-bit values, each as two bytes in the given byte order.
pub open spec fn u16s_bytes(vs: Seq<u16>, little: bool) -> Seq<u8>
    decreases vs.len(),
{
    if vs.len() == 0 {
        Seq::empty()
    } else {
        u16s_bytes(vs.drop_last(), little) + u16_bytes(vs.last(), little)
    }
}

/// The bytes an ASCII-string tag holds for a text: its UTF-8 bytes and a
/// closing NUL.
pub open spec fn string_tag_bytes(text: Seq<char>) -> Seq<u8> {
    encode_utf8(text).push(0u8)
}

/// The entries whose tag number is not in `hexes`, counted with repeats.
pub open spec fn apart(es: Seq<(u16, Seq<u8>)>, hexes: Set<u16>) -> Multiset<(u16, Seq<u8>)>
    decreases es.len(),
{
    if es.len() == 0 {
        Multiset::empty()
    } else if hexes.contains(es.last().0) {
        apart(es.drop_last(), hexes)
    } else {
        apart(es.drop_last(), hexes).insert(es.last())
    }
}

/// Every tag number other than `hex` reads the same first value in
/// `after` as in `before`.
pub open spec fn keeps_first(before: Metadata, after: Metadata, hex: u16) -> bool {
    forall|h: u16| h != hex ==> #[trigger] first_value(exif_entries(after), h) == first_value(exif_entries(before), h)
}

/// `after` holds the tag `hex` with value `bytes`, and every entry of
/// another tag number that `before` held, as many times, and no other;
/// those tags read the same first values.
pub open spec fn tag_set(before: Metadata, after: Metadata, hex: u16, bytes: Seq<u8>) -> bool {
    &&& exif_little_endian(after) == exif_little_endian(before)
    &&& exif_entries(after).contains((hex, bytes))
    &&& apart(exif_entries(after), set![hex]) == apart(exif_entries(before), set![hex])
    &&& keeps_first(before, after, hex)
}

/// [`tag_set`], and the tag now reads `bytes` first.
pub open spec fn tag_put_first(before: Metadata, after: Metadata, hex: u16, bytes: Seq<u8>) -> bool {
    &&& tag_set(before, after, hex, bytes)
    &&& first_value(exif_entries(after), hex) == Some(bytes)
}

/// `after` holds no entry that `before` did not, and every entry of another
/// tag number than `hex` as many times as `before`.
pub open spec fn tag_removed(before: Metadata, after: Metadata, hex: u16) -> bool {
    &&& exif_little_endian(after) == exif_little_endian(before)
    &&& exif_entries(after).to_multiset().subset_of(exif_entries(before).to_multiset())
    &&& apart(exif_entries(after), set![hex]) == apart(exif_entries(before), set![hex])
    &&& keeps_first(before, after, hex)
}

/// What `Metadata::new_from_vec` does with a file's bytes of a type:
/// `None` where it does not return (it panics, for one, when the bytes hold
/// two directories of one kind and number), else the metadata it reads or
/// its error's message.
pub uninterp spec fn exif_read(b: Seq<u8>, ft: FileExtension) -> Option<Result<Metadata, Seq<char>>>;

/// What `Metadata::write_to_vec` does with metadata, a file's bytes and
/// its type: `None` where it does not return (it panics, for one, on a WebP
/// file whose chunk sizes are odd), else the file's bytes afterwards and
/// its outcome (`Ok` or the error's message).
pub uninterp spec fn exif_write(m: Metadata, buf: Seq<u8>, ft: FileExtension) -> Option<(Seq<u8>, Result<(), Seq<char>>)>;

/// A read outcome with the message in place of the error.
pub open spec fn read_result(r: Result<Metadata, String>) -> Result<Metadata, Seq<char>> {
    match r {
        Ok(m) => Ok(m),
        Err(e) => Err(e@),
    }
}

/// A write outcome with the message in place of the error.
pub open spec fn write_result(r: Result<(), String>) -> Result<(), Seq<char>> {
    match r {
        Ok(()) => Ok(()),
        Err(e) => Err(e@),
    }
}

/// `Metadata::new_from_vec`: the metadata held by a file's bytes, or the
/// message of why they cannot be read, as [`exif_read`] names it; bytes on
/// which it does not return are left out.
#[verifier::external_body]
pub(crate) fn metadata_from_bytes(b: &Vec<u8>, ft: FileExtension) -> (r: Result<Metadata, String>)
    requires
        exif_read(b@, ft) is Some,
    ensures
        exif_read(b@, ft) == Some(read_result(r)),
{
    match Metadata::new_from_vec(b, ft) {
        Ok(m) => Ok(m),
        Err(e) => Err(e.to_string()),
    }
}

/// `Metadata::new`: little-endian metadata without any tag.
#[verifier::external_body]
fn empty_metadata() -> (r: Metadata)
    ensures
        exif_entries(r) == Seq::<(u16, Seq<u8>)>::empty(),
        exif_little_endian(r),
{
    Metadata::new()
}

/// `Metadata::get_endian`: whether the metadata is little-endian.
#[verifier::external_body]
fn is_little_endian(m: &Metadata) -> (r: bool)
    ensures
        r == exif_little_endian(*m),
{
    match m.get_endian() {
        Endian::Little => true,
        Endian::Big => false,
    }
}

/// `Metadata::get_tag_by_hex` (any group, first match) and
/// `value_as_u8_vec` in the metadata's byte order: the value of the first
/// tag with this number, if the metadata has one.
#[verifier::external_body]
fn tag_bytes(m: &Metadata, hex: u16) -> (r: Option<Vec<u8>>)
    ensures
        opt_bytes(r) == first_value(exif_entries(*m), hex),
{
    let endian = m.get_endian();
    match m.get_tag_by_hex(hex, None).next() {
        Some(tag) => Some(tag.value_as_u8_vec(&endian)),
        None => None,
    }
}

/// `Metadata::set_tag` with an unsigned 16-bit tag of the given number in
/// the generic group: the tag is put into the first generic directory (made
/// if missing; it sorts before every other directory) in place of one with
/// its number there, so it is the first of its number; each value is two
/// bytes in the metadata's byte order. Directories are only reordered
/// otherwise (by number and kind) and each directory's tags stably by
/// number, and the byte order stays.
#[verifier::external_body]
pub(crate) fn set_u16_tag(m: &mut Metadata, hex: u16, values: Vec<u16>)
    ensures
        tag_put_first(*old(m), *final(m), hex, u16s_bytes(values@, exif_little_endian(*old(m)))),
{
    m.set_tag(ExifTag::UnknownINT16U(values, hex, ExifTagGroup::GENERIC));
}

/// `Metadata::set_tag` with the user comment tag (an undefined-format tag:
/// its value is the bytes as given), put into the first EXIF directory in
/// place of one there; where the metadata held no user comment before, it
/// is now the only one, so it reads first.
#[verifier::external_body]
fn set_user_comment(m: &mut Metadata, bytes: Vec<u8>)
    ensures
        tag_set(*old(m), *final(m), USER_COMMENT_TAG, bytes@),
        first_value(exif_entries(*old(m)), USER_COMMENT_TAG) is None
            ==> first_value(exif_entries(*final(m)), USER_COMMENT_TAG) == Some(bytes@),
{
    m.set_tag(ExifTag::UserComment(bytes));
}

/// `Metadata::set_tag` with the image description tag (an ASCII-string
/// tag: its value is the text's UTF-8 bytes and a NUL), put into the first
/// generic directory, which sorts first: the description reads it first.
#[verifier::external_body]
fn set_description(m: &mut Metadata, text: String)
    ensures
        tag_put_first(*old(m), *final(m), DESCRIPTION_TAG, string_tag_bytes(text@)),
{
    m.set_tag(ExifTag::ImageDescription(text));
}

/// The text tags that tags are kept in.
pub enum TextTag {
    UserComment,
    ImageDescription,
}

/// The tag number of a text tag.
pub open spec fn text_tag_hex(which: TextTag) -> u16 {
    match which {
        TextTag::UserComment => USER_COMMENT_TAG,
        TextTag::ImageDescription => DESCRIPTION_TAG,
    }
}

/// `Metadata::remove_tag` for one of the text tags: the tag is dropped from
/// the directories of its group; nothing is added, and the other tags are
/// only reordered.
#[verifier::external_body]
fn remove_text_tag(m: &mut Metadata, which: TextTag)
    ensures
        tag_removed(*old(m), *final(m), text_tag_hex(which)),
{
    match which {
        TextTag::UserComment => {
            m.remove_tag(ExifTag::UserComment(Vec::new()));
        },
        TextTag::ImageDescription => {
            m.remove_tag(ExifTag::ImageDescription(String::new()));
        },
    }
}

/// `Metadata::write_to_vec`: writes the metadata into a file's bytes, or
/// gives the message of why it cannot; the bytes afterwards and the outcome
/// are what [`exif_write`] names. Inputs on which it does not return are
/// left out.
#[verifier::external_body]
pub(crate) fn write_metadata(m: &Metadata, buf: &mut Vec<u8>, ft: FileExtension) -> (r: Result<(), String>)
    requires
        exif_write(*m, old(buf)@, ft) is Some,
    ensures
        exif_write(*m, old(buf)@, ft) == Some((final(buf)@, write_result(r))),
{
    match m.write_to_vec(buf, ft) {
        Ok(()) => Ok(()),
        Err(e) => Err(e.to_string()),
    }
}

/// The number of the star rating tag.
pub const RATING_TAG: u16 = 0x4746;
/// The number of the rating percent tag.
pub const RATING_PERCENT_TAG: u16 = 0x4749;
/// The number of the image description tag.
pub const DESCRIPTION_TAG: u16 = 0x010e;
/// The number of the user comment tag.
pub const USER_COMMENT_TAG: u16 = 0x9286;

/// How many times an entry is counted apart from the tags in `hexes`: none
/// for those tags, else as often as it occurs.
pub proof fn lemma_apart_count(es: Seq<(u16, Seq<u8>)>, hexes: Set<u16>, x: (u16, Seq<u8>))
    ensures
        apart(es, hexes).count(x) == if hexes.contains(x.0) { 0 } else { es.to_multiset().count(x) },
    decreases es.len(),
{
    broadcast use vstd::seq_lib::group_to_multiset_ensures;
    if es.len() > 0 {
        lemma_apart_count(es.drop_last(), hexes, x);
        assert(es == es.drop_last().push(es.last()));
        assert(es.to_multiset() == es.drop_last().to_multiset().insert(es.last()));
    } else {
        assert(es.to_multiset() =~= Multiset::empty());
    }
}

/// Setting one tag and then another: both are held, and the entries of any
/// other tag number are as before.
pub proof fn lemma_two_tags_set(
    before: Metadata,
    mid: Metadata,
    after: Metadata,
    h1: u16,
    b1: Seq<u8>,
    h2: u16,
    b2: Seq<u8>,
)
    requires
        h1 != h2,
        tag_set(before, mid, h1, b1),
        tag_set(mid, after, h2, b2),
    ensures
        exif_little_endian(after) == exif_little_endian(before),
        exif_entries(after).contains((h1, b1)),
        exif_entries(after).contains((h2, b2)),
        apart(exif_entries(after), set![h1, h2]) == apart(exif_entries(before), set![h1, h2]),
{
    lemma_kept_entry(mid, after, h2, (h1, b1));
    lemma_two_tags_apart(before, mid, after, h1, h2);
}

/// An entry of another tag number than `hex` survives a change that keeps
/// those entries.
proof fn lemma_kept_entry(mid: Metadata, after: Metadata, hex: u16, x: (u16, Seq<u8>))
    requires
        x.0 != hex,
        exif_entries(mid).contains(x),
        apart(exif_entries(after), set![hex]) == apart(exif_entries(mid), set![hex]),
    ensures
        exif_entries(after).contains(x),
{
    broadcast use vstd::seq_lib::group_to_multiset_ensures;
    lemma_apart_count(exif_entries(mid), set![hex], x);
    lemma_apart_count(exif_entries(after), set![hex], x);
}

/// Two changes, each keeping the entries apart from one tag, keep the
/// entries apart from both.
proof fn lemma_two_tags_apart(before: Metadata, mid: Metadata, after: Metadata, h1: u16, h2: u16)
    requires
        apart(exif_entries(mid), set![h1]) == apart(exif_entries(before), set![h1]),
        apart(exif_entries(after), set![h2]) == apart(exif_entries(mid), set![h2]),
    ensures
        apart(exif_entries(after), set![h1, h2]) == apart(exif_entries(before), set![h1, h2]),
{
    let (e0, e1, e2) = (exif_entries(before), exif_entries(mid), exif_entries(after));
    assert forall|x: (u16, Seq<u8>)| #[trigger] apart(e2, set![h1, h2]).count(x) == apart(e0, set![h1, h2]).count(x) by {
        lemma_apart_count(e0, set![h1, h2], x);
        lemma_apart_count(e2, set![h1, h2], x);
        lemma_apart_count(e0, set![h1], x);
        lemma_apart_count(e1, set![h1], x);
        lemma_apart_count(e1, set![h2], x);
        lemma_apart_count(e2, set![h2], x);
    }
    assert(apart(e2, set![h1, h2]) =~= apart(e0, set![h1, h2]));
}

/// The raw values of the rating and tag tags held by metadata: its byte
/// order and the first value of each of those tags.
pub fn meta_tags_of(m: &Metadata) -> (r: MetaTags)
    ensures
        r.little_endian == exif_little_endian(*m),
        opt_bytes(r.rating) == first_value(exif_entries(*m), RATING_TAG),
        opt_bytes(r.user_comment) == first_value(exif_entries(*m), USER_COMMENT_TAG),
        opt_bytes(r.description) == first_value(exif_entries(*m), DESCRIPTION_TAG),
{
    MetaTags {
        little_endian: is_little_endian(m),
        rating: tag_bytes(m, RATING_TAG),
        user_comment: tag_bytes(m, USER_COMMENT_TAG),
        description: tag_bytes(m, DESCRIPTION_TAG),
    }
}

/// Tag numbers other than `h1` and `h2` read the same first value in
/// `after` as in `before`.
pub open spec fn keeps_first_apart(before: Metadata, after: Metadata, h1: u16, h2: u16) -> bool {
    forall|h: u16| h != h1 && h != h2 ==> #[trigger] first_value(exif_entries(after), h) == first_value(exif_entries(before), h)
}

/// `after` is `before` with a star rating written: the rating tag reads
/// the rating and the percent tag its percent value first, as 16-bit values
/// in the metadata's byte order; every entry and first value of another
/// tag is as before.
pub open spec fn rating_written(before: Metadata, after: Metadata, rating: u8) -> bool {
    let le = exif_little_endian(before);
    &&& exif_little_endian(after) == le
    &&& exif_entries(after).contains((RATING_TAG, u16_bytes(rating as u16, le)))
    &&& exif_entries(after).contains((RATING_PERCENT_TAG, u16_bytes(percent_of(rating), le)))
    &&& first_value(exif_entries(after), RATING_TAG) == Some(u16_bytes(rating as u16, le))
    &&& first_value(exif_entries(after), RATING_PERCENT_TAG) == Some(u16_bytes(percent_of(rating), le))
    &&& apart(exif_entries(after), set![RATING_TAG, RATING_PERCENT_TAG])
        == apart(exif_entries(before), set![RATING_TAG, RATING_PERCENT_TAG])
    &&& keeps_first_apart(before, after, RATING_TAG, RATING_PERCENT_TAG)
}

/// `after` is `before` with tags written: for no tags nothing is added
/// (the text tags are dropped), else the user comment holds the tags'
/// comment bytes and the description reads the tags as a string first;
/// every entry and first value of another tag is as before.
pub open spec fn tags_written(before: Metadata, after: Metadata, tags: Seq<char>) -> bool {
    let le = exif_little_endian(before);
    &&& exif_little_endian(after) == le
    &&& tags.len() == 0 ==> exif_entries(after).to_multiset().subset_of(exif_entries(before).to_multiset())
    &&& tags.len() > 0 ==> exif_entries(after).contains((USER_COMMENT_TAG, comment_bytes(tags, le)))
    &&& tags.len() > 0 ==> exif_entries(after).contains((DESCRIPTION_TAG, string_tag_bytes(tags)))
    &&& tags.len() > 0 ==> first_value(exif_entries(after), DESCRIPTION_TAG) == Some(string_tag_bytes(tags))
    &&& tags.len() > 0 && first_value(exif_entries(before), USER_COMMENT_TAG) is None
        ==> first_value(exif_entries(after), USER_COMMENT_TAG) == Some(comment_bytes(tags, le))
    &&& apart(exif_entries(after), set![USER_COMMENT_TAG, DESCRIPTION_TAG])
        == apart(exif_entries(before), set![USER_COMMENT_TAG, DESCRIPTION_TAG])
    &&& keeps_first_apart(before, after, USER_COMMENT_TAG, DESCRIPTION_TAG)
}

/// The star rating that metadata reads back: [`rating_of`] the first
/// rating value, in its byte order (what [`meta_tags_of`] and
/// `parse_rating` give).
pub open spec fn read_rating(m: Metadata) -> u8 {
    crate::rating::rating_of(first_value(exif_entries(m), RATING_TAG), exif_little_endian(m))
}

/// A rating of at most 5 reads back as itself, a larger one as 5.
pub open spec fn capped_rating(rating: u8) -> u8 {
    if rating > 5 { 5 } else { rating }
}

/// A rating written as two bytes reads back capped at 5.
proof fn lemma_rating_read_back(m: Metadata, rating: u8)
    requires
        first_value(exif_entries(m), RATING_TAG) == Some(u16_bytes(rating as u16, exif_little_endian(m))),
    ensures
        read_rating(m) == capped_rating(rating),
{
    let v = rating as u16;
    assert(v % 256 == v && v / 256 == 0);
}

/// One 16-bit value is its two bytes.
proof fn lemma_one_u16(v: u16, little: bool)
    ensures
        u16s_bytes(seq![v], little) == u16_bytes(v, little),
{
    assert(seq![v].drop_last() =~= Seq::<u16>::empty());
    assert(u16s_bytes(Seq::<u16>::empty(), little) + u16_bytes(v, little) =~= u16_bytes(v, little));
}

fn write_rating_into(m: &mut Metadata, rating: u8)
    ensures
        rating_written(*old(m), *final(m), rating),
{
    let ghost before = *m;
    let mut r: Vec<u16> = Vec::new();
    r.push(rating as u16);
    proof {
        assert(r@ =~= seq![rating as u16]);
        lemma_one_u16(rating as u16, exif_little_endian(before));
    }
    set_u16_tag(m, RATING_TAG, r);
    let ghost mid = *m;
    let mut p: Vec<u16> = Vec::new();
    let pv = percent_for(rating);
    p.push(pv);
    proof {
        assert(p@ =~= seq![pv]);
        lemma_one_u16(pv, exif_little_endian(mid));
    }
    set_u16_tag(m, RATING_PERCENT_TAG, p);
    proof {
        lemma_two_tags_set(
            before,
            mid,
            *m,
            RATING_TAG,
            u16_bytes(rating as u16, exif_little_endian(before)),
            RATING_PERCENT_TAG,
            u16_bytes(percent_of(rating), exif_little_endian(before)),
        );
        assert(first_value(exif_entries(*m), RATING_TAG) == first_value(exif_entries(mid), RATING_TAG));
        assert forall|h: u16| h != RATING_TAG && h != RATING_PERCENT_TAG implies
            #[trigger] first_value(exif_entries(*m), h) == first_value(exif_entries(before), h) by {
            assert(first_value(exif_entries(*m), h) == first_value(exif_entries(mid), h));
            assert(first_value(exif_entries(mid), h) == first_value(exif_entries(before), h));
        }
    }
}

fn write_tags_into(m: &mut Metadata, tags: &str)
    ensures
        tags_written(*old(m), *final(m), tags@),
{
    let ghost before = *m;
    let le = is_little_endian(m);
    match tag_write(tags, le) {
        TagWrite::Remove => {
            remove_text_tag(m, TextTag::UserComment);
            let ghost mid = *m;
            remove_text_tag(m, TextTag::ImageDescription);
            proof {
                lemma_two_tags_apart(before, mid, *m, USER_COMMENT_TAG, DESCRIPTION_TAG);
                assert forall|h: u16| h != USER_COMMENT_TAG && h != DESCRIPTION_TAG implies
                    #[trigger] first_value(exif_entries(*m), h) == first_value(exif_entries(before), h) by {
                    assert(first_value(exif_entries(*m), h) == first_value(exif_entries(mid), h));
                    assert(first_value(exif_entries(mid), h) == first_value(exif_entries(before), h));
                }
            }
        },
        TagWrite::Write { user_comment, description } => {
            set_user_comment(m, user_comment);
            let ghost mid = *m;
            set_description(m, description);
            proof {
                lemma_two_tags_set(
                    before,
                    mid,
                    *m,
                    USER_COMMENT_TAG,
                    comment_bytes(tags@, le),
                    DESCRIPTION_TAG,
                    string_tag_bytes(tags@),
                );
                assert(first_value(exif_entries(*m), USER_COMMENT_TAG) == first_value(exif_entries(mid), USER_COMMENT_TAG));
                assert forall|h: u16| h != USER_COMMENT_TAG && h != DESCRIPTION_TAG implies
                    #[trigger] first_value(exif_entries(*m), h) == first_value(exif_entries(before), h) by {
                    assert(first_value(exif_entries(*m), h) == first_value(exif_entries(mid), h));
                    assert(first_value(exif_entries(mid), h) == first_value(exif_entries(before), h));
                }
            }
        },
    }
}

/// A change to an image's metadata.
pub enum MetaEdit {
    /// Set the star rating (and its percent value).
    Rating(u8),
    /// Replace the tags (an empty text removes them).
    Tags(String),
    /// Set the star rating and merge tags into the recorded ones.
    Mark(u8, String),
}

/// The tags recorded in metadata, as [`tags_in`] reads them from the first
/// user comment and description values.
pub open spec fn recorded_tags(m: Metadata) -> Seq<char> {
    tags_in(
        first_value(exif_entries(m), USER_COMMENT_TAG),
        first_value(exif_entries(m), DESCRIPTION_TAG),
        exif_little_endian(m),
    )
}

/// `after` is `before` with the edit applied, and `merged` what it gives:
/// a rating or tags written (giving nothing), or for a mark the rating and
/// then the recorded tags merged with the incoming ones written (giving
/// the merged tags).
pub open spec fn edit_applied(before: Metadata, after: Metadata, edit: MetaEdit, merged: Seq<char>) -> bool {
    match edit {
        MetaEdit::Rating(rating) => merged.len() == 0 && rating_written(before, after, rating),
        MetaEdit::Tags(tags) => merged.len() == 0 && tags_written(before, after, tags@),
        MetaEdit::Mark(rating, incoming) => {
            &&& merged == merged_tags(recorded_tags(before), incoming@)
            &&& exists|mid: Metadata|
                #[trigger] rating_written(before, mid, rating) && tags_written(mid, after, merged)
        },
    }
}

/// Tags written where no user comment was read back as the tags,
/// normalized, when that is not empty.
proof fn lemma_tags_read_back(before: Metadata, after: Metadata, tags: Seq<char>)
    requires
        tags_written(before, after, tags),
    ensures
        first_value(exif_entries(before), USER_COMMENT_TAG) is None && normalized(tags).len() > 0
            ==> recorded_tags(after) == normalized(tags),
{
    if first_value(exif_entries(before), USER_COMMENT_TAG) is None && normalized(tags).len() > 0 {
        if tags.len() == 0 {
            assert(crate::filter::without_nul(tags) =~= tags);
            assert(crate::text::trim_start(tags) == tags);
            assert(crate::text::trim_end(tags) == tags);
        }
        lemma_comment_round_trip(tags, exif_little_endian(before));
    }
}

/// Applies an edit to metadata (see [`edit_applied`]). A rating that was
/// written, by itself or in a mark, reads back (capped at 5).
pub fn apply_edit(meta: &mut Metadata, edit: MetaEdit) -> (merged: String)
    ensures
        edit_applied(*old(meta), *final(meta), edit, merged@),
        edit matches MetaEdit::Rating(rating) ==> read_rating(*final(meta)) == capped_rating(rating),
        edit matches MetaEdit::Mark(rating, _) ==> read_rating(*final(meta)) == capped_rating(rating),
        edit matches MetaEdit::Tags(tags) ==> (first_value(exif_entries(*old(meta)), USER_COMMENT_TAG) is None
            && normalized(tags@).len() > 0 ==> recorded_tags(*final(meta)) == normalized(tags@)),
        edit is Mark ==> (first_value(exif_entries(*old(meta)), USER_COMMENT_TAG) is None
            && normalized(merged@).len() > 0 ==> recorded_tags(*final(meta)) == normalized(merged@)),
{
    match edit {
        MetaEdit::Rating(rating) => {
            write_rating_into(meta, rating);
            proof { lemma_rating_read_back(*meta, rating); }
            String::new()
        },
        MetaEdit::Tags(tags) => {
            write_tags_into(meta, tags.as_str());
            proof { lemma_tags_read_back(*old(meta), *meta, tags@); }
            String::new()
        },
        MetaEdit::Mark(rating, incoming) => {
            let existing = meta_tags_of(meta);
            let (merged, _) = mark_tags(&existing, incoming.as_str());
            write_rating_into(meta, rating);
            let ghost mid = *meta;
            write_tags_into(meta, merged.as_str());
            proof {
                assert(rating_written(*old(meta), mid, rating) && tags_written(mid, *meta, merged@));
                assert(first_value(exif_entries(*meta), RATING_TAG) == first_value(exif_entries(mid), RATING_TAG));
                lemma_rating_read_back(*meta, rating);
                assert(first_value(exif_entries(mid), USER_COMMENT_TAG) == first_value(exif_entries(*old(meta)), USER_COMMENT_TAG));
                lemma_tags_read_back(mid, *meta, merged@);
            }
            merged
        },
    }
}

/// The metadata an edit of a file's bytes starts from: the metadata read
/// from them, or (where none can be read) empty little-endian metadata.
pub open spec fn edit_start(buf: Seq<u8>, ft: FileExtension, before: Metadata) -> bool {
    match exif_read(buf, ft) {
        Some(Ok(m)) => before == m,
        _ => exif_entries(before) == Seq::<(u16, Seq<u8>)>::empty() && exif_little_endian(before),
    }
}

/// Every metadata that the edit can give from where it starts can be
/// written into the file's bytes (the writer returns).
pub open spec fn edit_writable(buf: Seq<u8>, ft: FileExtension, edit: MetaEdit) -> bool {
    forall|before: Metadata, after: Metadata, merged: Seq<char>|
        #![trigger edit_start(buf, ft, before), edit_applied(before, after, edit, merged)]
        edit_start(buf, ft, before) && edit_applied(before, after, edit, merged)
            ==> exif_write(after, buf, ft) is Some
}

/// A file's bytes with a metadata edit applied: the metadata is read from
/// the bytes (a file without readable metadata starts from none), edited
/// by [`apply_edit`], and written back. Succeeds exactly when the writer
/// does, with its bytes and, for a mark, the merged tags (else nothing);
/// fails with the writer's message. Bytes on which the reader or the
/// writer does not return are left out.
pub fn edit_metadata(buf: Vec<u8>, ft: FileExtension, edit: MetaEdit) -> (r: Result<(Vec<u8>, String), String>)
    requires
        exif_read(buf@, ft) is Some,
        edit_writable(buf@, ft, edit),
    ensures
        exists|before: Metadata, after: Metadata, merged: Seq<char>|
            #![trigger edit_applied(before, after, edit, merged)]
            edit_start(buf@, ft, before) && edit_applied(before, after, edit, merged)
                && match exif_write(after, buf@, ft) {
                    Some((out, Ok(()))) => r matches Ok((o, t)) && o@ == out && t@ == merged,
                    Some((_, Err(e))) => r matches Err(x) && x@ == e,
                    None => false,
                },
{
    let ghost input = buf@;
    let mut buf = buf;
    let mut meta = match metadata_from_bytes(&buf, ft) {
        Ok(m) => m,
        Err(_) => empty_metadata(),
    };
    let ghost before = meta;
    let ghost e = edit;
    let merged = apply_edit(&mut meta, edit);
    let ghost after = meta;
    assert(edit_start(input, ft, before) && edit_applied(before, after, e, merged@));
    let w = write_metadata(&meta, &mut buf, ft);
    match w {
        Ok(()) => Ok((buf, merged)),
        Err(e) => Err(e),
    }
}

} // verus!
