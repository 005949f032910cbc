//! What holds of audio made of frames: how long a frame is by the bits of its header, and how far
//! the frames of a stream lead.

use vstd::prelude::*;

use crate::scanner::ends::EndResult;
use crate::scanner::walk_audio::{self, AudioWalk};
use crate::signatures::audio::{self, AudioStream, ChainModel, ChainStop};

verus! {

/// Bit rate in kbit/s of a Layer III frame of MPEG-1, for the indices from 1 to 14: four steps of
/// equal width, then twice as wide ones.
pub open spec fn kbps_of_mpeg1(index: int) -> int {
    let step = (index - 1) % 4;
    if index <= 4 {
        8 * (4 + step)
    } else if index <= 8 {
        16 * (4 + step)
    } else if index <= 12 {
        32 * (4 + step)
    } else {
        64 * (4 + step)
    }
}

/// Bit rate in kbit/s of a Layer III frame of MPEG-2 and MPEG-2.5, for the indices from 1 to 14:
/// steps of 8 up to 64, and of 16 from there.
pub open spec fn kbps_of_mpeg2(index: int) -> int {
    if index <= 8 { 8 * index } else { 64 + 16 * (index - 8) }
}

/// An MPEG audio frame is as long as its rates say, and one byte longer where it is padded. A
/// header without the sync bits, or with an index that stands for no rate, opens none. The length
/// is the one that holds the samples of a frame: 1152 in MPEG-1, half of them in the others.
pub proof fn law_mpeg_frames_are_as_long_as_their_rates_say(data: Seq<u8>, pos: int)
    requires
        0 <= pos,
        pos + 3 <= data.len(),
    ensures
        ({
            let (one, two, three) = (data[pos], data[pos + 1], data[pos + 2]);
            let version = (two >> 3) & 3;
            let index = (three >> 4) as int;
            let rate = (three >> 2) & 3;
            let padding = ((three >> 1) & 1) as int;
            let hz: int = if rate == 0 { 44_100 } else if rate == 1 { 48_000 } else { 32_000 };
            if one == 0xFF && two & 0xE0 == 0xE0 && 1 <= index <= 14 && rate != 3 {
                audio::mpeg_frame(data, pos) matches Some((length, code)) && if version == 3
                    || version == 1 {
                    length == (1152 * 125 * kbps_of_mpeg1(index)) / hz + padding && code == rate
                } else if version == 2 {
                    length == (576 * 125 * kbps_of_mpeg2(index)) / (hz / 2) + padding && code == rate
                        + 4
                } else {
                    length == (576 * 125 * kbps_of_mpeg2(index)) / (hz / 4) + padding && code == rate
                        + 8
                }
            } else {
                audio::mpeg_frame(data, pos) is None
            }
        }),
{
    let (two, three) = (data[pos + 1], data[pos + 2]);
    lemma_mpeg_bits(two, three);
}

proof fn lemma_mpeg_bits(two: u8, three: u8)
    by (bit_vector)
    ensures
        (two >> 3) & 3 == (two / 8) % 4,
        three >> 4 == three / 16,
        (three >> 2) & 3 == (three / 4) % 4,
        (three >> 1) & 1 == (three / 2) % 2,
        (two & 0xE0 == 0xE0) == (two >= 0xE0),
        three >> 4 <= 15,
        (three >> 2) & 3 <= 3,
        (three >> 1) & 1 <= 1,
        (two >> 3) & 3 <= 3,
{
}

/// The padding bit makes a frame one byte longer, and the bit beside it makes no difference.
pub proof fn law_padding_adds_one_byte(data: Seq<u8>, pos: int)
    requires
        0 <= pos,
        pos + 3 <= data.len(),
        data[pos + 2] & 2 == 0,
    ensures
        ({
            let padded = data.update(pos + 2, data[pos + 2] | 2);
            let marked = data.update(pos + 2, data[pos + 2] ^ 1);
            &&& audio::mpeg_frame(marked, pos) == audio::mpeg_frame(data, pos)
            &&& audio::mpeg_frame(padded, pos) == match audio::mpeg_frame(data, pos) {
                Some((length, code)) => Some((length + 1, code)),
                None => None,
            }
        }),
{
    let three = data[pos + 2];
    lemma_padding_bits(three);
    let padded = data.update(pos + 2, three | 2);
    let marked = data.update(pos + 2, three ^ 1);
    law_mpeg_frames_are_as_long_as_their_rates_say(data, pos);
    law_mpeg_frames_are_as_long_as_their_rates_say(padded, pos);
    law_mpeg_frames_are_as_long_as_their_rates_say(marked, pos);
}

proof fn lemma_padding_bits(three: u8)
    by (bit_vector)
    requires
        three & 2 == 0,
    ensures
        (three >> 1) & 1 == 0,
        ((three | 2) >> 1) & 1 == 1,
        ((three ^ 1) >> 1) & 1 == 0,
        (three | 2) >> 4 == three >> 4,
        (three ^ 1) >> 4 == three >> 4,
        ((three | 2) >> 2) & 3 == (three >> 2) & 3,
        ((three ^ 1) >> 2) & 3 == (three >> 2) & 3,
{
}

/// An ADTS frame is as long as the thirteen bits say that stand across three bytes of its header.
/// The bits around them make no difference.
pub proof fn law_adts_frames_are_as_long_as_they_say(data: Seq<u8>, pos: int, length: u16)
    requires
        0 <= pos,
        pos + 6 <= data.len(),
        length < 0x2000,
        data[pos + 3] & 3 == (length >> 11) as u8,
        data[pos + 4] == ((length >> 3) & 0xFF) as u8,
        data[pos + 5] >> 5 == (length & 7) as u8,
    ensures
        ({
            let profile = data[pos + 2] >> 6;
            let rate = (data[pos + 2] >> 2) & 15;
            audio::adts_frame(data, pos) == if data[pos] == 0xFF && data[pos + 1] & 0xF0 == 0xF0
                && profile != 3 && rate <= 12 && length >= 7 {
                Some((length as int, rate))
            } else {
                None
            }
        }),
{
    let (two, three) = (data[pos + 1], data[pos + 2]);
    let (four, five, six) = (data[pos + 3], data[pos + 4], data[pos + 5]);
    lemma_adts_bits(two, three);
    lemma_adts_length_bits(four, five, six, length);
}

proof fn lemma_adts_bits(two: u8, three: u8)
    by (bit_vector)
    ensures
        (two & 0xF0 == 0xF0) == (two >= 0xF0),
        three >> 6 == three / 64,
        (three >> 2) & 15 == (three / 4) % 16,
{
}

proof fn lemma_adts_length_bits(four: u8, five: u8, six: u8, length: u16)
    by (bit_vector)
    requires
        length < 0x2000,
        four & 3 == (length >> 11) as u8,
        five == ((length >> 3) & 0xFF) as u8,
        six >> 5 == (length & 7) as u8,
    ensures
        2048 * (four % 4) + 8 * five + six / 32 == length,
{
}

/// A tag takes its header of ten bytes, the body whose size is written in four times seven bits,
/// and ten bytes more where the flag says that a footer follows.
pub proof fn law_tags_are_as_long_as_they_say(data: Seq<u8>, body: u32)
    requires
        data.len() >= 10,
        data[0] as char == 'I',
        data[1] as char == 'D',
        data[2] as char == '3',
        body < 0x1000_0000,
        data[6] == (body >> 21) as u8,
        data[7] == ((body >> 14) & 0x7F) as u8,
        data[8] == ((body >> 7) & 0x7F) as u8,
        data[9] == (body & 0x7F) as u8,
    ensures
        audio::id3_tag(data) == Some(10 + body + if data[5] & 0x10 != 0 { 10int } else { 0int }),
{
    lemma_tag_bits(data[5], data[6], data[7], data[8], data[9], body);
}

proof fn lemma_tag_bits(flags: u8, one: u8, two: u8, three: u8, four: u8, body: u32)
    by (bit_vector)
    requires
        body < 0x1000_0000,
        one == (body >> 21) as u8,
        two == ((body >> 14) & 0x7F) as u8,
        three == ((body >> 7) & 0x7F) as u8,
        four == (body & 0x7F) as u8,
    ensures
        one < 0x80,
        two < 0x80,
        three < 0x80,
        four < 0x80,
        0x20_0000 * one + 0x4000 * two + 0x80 * three + four == body,
        (flags & 0x10 != 0) == ((flags / 16) % 2 == 1),
{
}

/// Frames of one rate stand end to end in `data`, at these places, from the first of them up to
/// the last, which is where they end.
pub open spec fn stand_end_to_end(
    data: Seq<u8>,
    kind: AudioStream,
    places: Seq<int>,
    rate: u8,
) -> bool {
    &&& places.len() >= 1
    &&& 0 <= places[0]
    &&& places.last() <= data.len()
    &&& forall|k: int|
        0 <= k < places.len() - 1 ==> #[trigger] kind.frame(data, places[k]) == Some(
            (places[k + 1] - places[k], rate),
        )
}

/// All frames that stand end to end are chained. The chain stops where the data ends, or where
/// something follows that is no frame of the stream.
pub proof fn law_frames_that_stand_end_to_end_chain(
    data: Seq<u8>,
    kind: AudioStream,
    places: Seq<int>,
    rate: u8,
    max_frames: int,
)
    requires
        stand_end_to_end(data, kind, places, rate),
        places[0] == 0,
        places.len() >= 2,
        max_frames >= places.len(),
    ensures
        ({
            let walk = audio::chain(data, kind, max_frames, None);
            let end = places.last();
            let frames = places.len() - 1;
            &&& data.len() == end ==> walk == (ChainModel {
                frames: frames,
                bytes: end,
                stop: ChainStop::NoMoreData,
                sample_rate: Some(rate),
            })
            &&& data.len() >= end + 6 && kind.frame(data, end) is None ==> walk == (ChainModel {
                frames: frames,
                bytes: end,
                stop: ChainStop::BadData,
                sample_rate: Some(rate),
            })
            &&& (kind.frame(data, end) matches Some((length, other)) && other == rate && end + length
                > data.len()) ==> walk == (ChainModel {
                frames: frames,
                bytes: end,
                stop: ChainStop::Truncated,
                sample_rate: Some(rate),
            })
            &&& (kind.frame(data, end) matches Some((length, other)) && other != rate) ==> walk == (
            ChainModel {
                frames: frames,
                bytes: end,
                stop: ChainStop::BadData,
                sample_rate: Some(rate),
            })
        }),
{
    lemma_chain_reaches(data, kind, places, rate, max_frames, 0, None);
}

proof fn lemma_chain_reaches(
    data: Seq<u8>,
    kind: AudioStream,
    places: Seq<int>,
    rate: u8,
    max_frames: int,
    k: int,
    expected: Option<u8>,
)
    requires
        stand_end_to_end(data, kind, places, rate),
        0 <= k < places.len(),
        max_frames >= places.len(),
        expected is None || expected == Some(rate),
        k == places.len() - 1 ==> expected == Some(rate),
    ensures
        audio::chain_from(data, kind, max_frames, expected, places[k], k) == audio::chain_from(
            data,
            kind,
            max_frames,
            Some(rate),
            places.last(),
            places.len() - 1,
        ),
    decreases places.len() - k,
{
    if k < places.len() - 1 {
        assert(kind.frame(data, places[k]) == Some((places[k + 1] - places[k], rate)));
        lemma_places_rise(data, kind, places, rate, k + 1);
        audio::law_frame_length_bounds(kind, data, places[k]);
        lemma_chain_reaches(data, kind, places, rate, max_frames, k + 1, Some(rate));
    }
}

proof fn lemma_places_rise(
    data: Seq<u8>,
    kind: AudioStream,
    places: Seq<int>,
    rate: u8,
    k: int,
)
    requires
        stand_end_to_end(data, kind, places, rate),
        0 <= k < places.len(),
    ensures
        places[k] <= places.last(),
    decreases places.len() - k,
{
    if k < places.len() - 1 {
        assert(kind.frame(data, places[k]) == Some((places[k + 1] - places[k], rate)));
        audio::law_frame_length_bounds(kind, data, places[k]);
        lemma_places_rise(data, kind, places, rate, k + 1);
    }
}

/// A song of twelve frames or more is believed by its sync word, and ends with its last frame: where
/// something else follows, and at the end of the source. Fewer frames before something else are not
/// believed.
pub proof fn law_songs_end_with_their_last_frame(data: Seq<u8>, places: Seq<int>, rate: u8)
    requires
        stand_end_to_end(data, AudioStream::Mpeg, places, rate),
        places[0] == 0,
        places.len() >= 2,
        places.len() <= usize::MAX,
        data.len() == places.last() || (data.len() >= places.last() + 6 && audio::mpeg_frame(
            data,
            places.last(),
        ) is None),
    ensures
        ({
            let (end, frames) = (places.last(), places.len() - 1);
            let follows = data.len() > end;
            &&& audio::mp3_sync_ok(data) == (frames >= 12 || !follows)
            &&& audio::mp3_end(data, true) == if frames >= 12 { Some(end) } else { None }
            &&& audio::mp3_end(data, false) == if frames >= 12 && follows { Some(end) } else { None }
        }),
{
    let kind = AudioStream::Mpeg;
    law_frames_that_stand_end_to_end_chain(data, kind, places, rate, usize::MAX as int);
    assert(kind.frame(data, places[0]) == Some((places[1] - places[0], rate)));
    assert(audio::mpeg_frame(data, 0) is Some);
    assert(audio::id3_tag(data) is None);
    assert(data.skip(0) =~= data);
    lemma_capped_chain(data, kind, places, rate);
}

/// The same of an AAC stream.
pub proof fn law_aac_streams_end_with_their_last_frame(data: Seq<u8>, places: Seq<int>, rate: u8)
    requires
        stand_end_to_end(data, AudioStream::Adts, places, rate),
        places[0] == 0,
        places.len() >= 2,
        places.len() <= usize::MAX,
        data.len() == places.last() || (data.len() >= places.last() + 6 && audio::adts_frame(
            data,
            places.last(),
        ) is None),
    ensures
        ({
            let (end, frames) = (places.last(), places.len() - 1);
            let follows = data.len() > end;
            &&& audio::aac_adts_ok(data) == (frames >= 12 || !follows)
            &&& audio::aac_end(data, true) == if frames >= 12 { Some(end) } else { None }
            &&& audio::aac_end(data, false) == if frames >= 12 && follows { Some(end) } else { None }
        }),
{
    let kind = AudioStream::Adts;
    law_frames_that_stand_end_to_end_chain(data, kind, places, rate, usize::MAX as int);
    assert(kind.frame(data, places[0]) == Some((places[1] - places[0], rate)));
    assert(audio::adts_frame(data, 0) is Some);
    lemma_capped_chain(data, kind, places, rate);
}

/// A walk for twelve frames stops at the twelfth, or where the frames end.
proof fn lemma_capped_chain(data: Seq<u8>, kind: AudioStream, places: Seq<int>, rate: u8)
    requires
        stand_end_to_end(data, kind, places, rate),
        places[0] == 0,
        places.len() >= 2,
        data.len() == places.last() || (data.len() >= places.last() + 6 && kind.frame(
            data,
            places.last(),
        ) is None),
    ensures
        ({
            let walk = audio::chain(data, kind, 12, None);
            let frames = places.len() - 1;
            &&& frames >= 12 ==> walk.frames == 12
            &&& frames < 12 ==> walk.frames == frames && (walk.stop == ChainStop::BadData) == (
            data.len() > places.last())
        }),
{
    if places.len() <= 12 {
        law_frames_that_stand_end_to_end_chain(data, kind, places, rate, 12);
    } else {
        lemma_capped_chain_from(data, kind, places, rate, 0, None);
    }
}

proof fn lemma_capped_chain_from(
    data: Seq<u8>,
    kind: AudioStream,
    places: Seq<int>,
    rate: u8,
    k: int,
    expected: Option<u8>,
)
    requires
        stand_end_to_end(data, kind, places, rate),
        0 <= k <= 12 < places.len(),
        expected is None || expected == Some(rate),
    ensures
        audio::chain_from(data, kind, 12, expected, places[k], k).frames == 12,
    decreases 12 - k,
{
    if k < 12 {
        assert(kind.frame(data, places[k]) == Some((places[k + 1] - places[k], rate)));
        lemma_places_rise(data, kind, places, rate, k + 1);
        audio::law_frame_length_bounds(kind, data, places[k]);
        lemma_capped_chain_from(data, kind, places, rate, k + 1, Some(rate));
    }
}

/// A tag in front of a song belongs to it, and makes no difference to where its frames end.
pub proof fn law_tags_belong_to_their_song(data: Seq<u8>, size: int, at_source_end: bool)
    requires
        audio::id3_tag(data) == Some(size),
        size < data.len(),
        data.skip(size)[0] == 0xFF,
    ensures
        audio::mp3_end(data, at_source_end) == match audio::mp3_end(
            data.skip(size),
            at_source_end,
        ) {
            Some(rest) => Some(size + rest),
            None => None,
        },
{
    let rest = data.skip(size);
    assert(audio::id3_tag(rest) is None);
    assert(rest.skip(0) =~= rest);
}

/// A song of twelve frames or more is settled at the end of its last frame, however long it is and
/// however it is read: exactly where something else follows or the source ends.
pub proof fn law_songs_are_settled_at_their_last_frame(
    source: Seq<u8>,
    offset: u64,
    max_size: u64,
    chunk_size: usize,
    places: Seq<int>,
    rate: u8,
)
    requires
        offset + max_size <= u64::MAX,
        offset <= source.len(),
        source.len() - offset < max_size,
        8192 <= chunk_size,
        ({
            let rest = source.skip(offset as int);
            &&& stand_end_to_end(rest, AudioStream::Mpeg, places, rate)
            &&& rest.len() == places.last() || (rest.len() >= places.last() + 6
                && audio::mpeg_frame(rest, places.last()) is None)
        }),
        places[0] == 0,
        places.len() >= 2,
    ensures
        walk_audio::walked(
            source,
            AudioWalk {
                offset: offset,
                max_size: max_size,
                kind: AudioStream::Mpeg,
                chunk_size: chunk_size,
                consumed: 0,
                frames: 0,
                sample_rate: None,
                tag_done: false,
            },
        ) == if places.len() > 12 {
            EndResult::Size(places.last() as u64)
        } else {
            EndResult::Rejected
        },
{
    let rest = source.skip(offset as int);
    let kind = AudioStream::Mpeg;
    walk_audio::law_chunks_do_not_matter(source, offset, max_size, kind, chunk_size);
    assert(kind.frame(rest, places[0]) == Some((places[1] - places[0], rate)));
    assert(audio::id3_tag(rest) is None);
    assert(rest.skip(0) =~= rest);
    lemma_places_are_far(rest, kind, places, rate, places.len() - 1);
    law_frames_that_stand_end_to_end_chain(rest, kind, places, rate, (rest.len() + 1) as int);
}

proof fn lemma_places_are_far(
    data: Seq<u8>,
    kind: AudioStream,
    places: Seq<int>,
    rate: u8,
    k: int,
)
    requires
        stand_end_to_end(data, kind, places, rate),
        0 <= k < places.len(),
    ensures
        places[k] >= places[0] + 7 * k,
    decreases k,
{
    if k > 0 {
        lemma_places_are_far(data, kind, places, rate, k - 1);
        assert(kind.frame(data, places[k - 1]) == Some((places[k - 1 + 1] - places[k - 1], rate)));
        audio::law_frame_length_bounds(kind, data, places[k - 1]);
    }
}

/// A song whose last frame is cut off by the end of the source reaches to its last whole frame, and its
/// end stays open. Fewer than twelve whole frames are no song.
pub proof fn law_cut_songs_reach_to_their_last_whole_frame(
    source: Seq<u8>,
    offset: u64,
    max_size: u64,
    kind: AudioStream,
    chunk_size: usize,
    places: Seq<int>,
    rate: u8,
)
    requires
        offset + max_size <= u64::MAX,
        offset <= source.len(),
        source.len() - offset < max_size,
        8192 <= chunk_size,
        ({
            let rest = source.skip(offset as int);
            &&& stand_end_to_end(rest, kind, places, rate)
            &&& kind.frame(rest, places.last()) matches Some((length, other)) && other == rate
                && places.last() + length > rest.len()
        }),
        places[0] == 0,
        places.len() >= 2,
    ensures
        walk_audio::walked(
            source,
            AudioWalk {
                offset: offset,
                max_size: max_size,
                kind: kind,
                chunk_size: chunk_size,
                consumed: 0,
                frames: 0,
                sample_rate: None,
                tag_done: false,
            },
        ) == if places.len() > 12 {
            EndResult::SizeUnverified(places.last() as u64)
        } else {
            EndResult::Rejected
        },
{
    let rest = source.skip(offset as int);
    walk_audio::law_chunks_do_not_matter(source, offset, max_size, kind, chunk_size);
    assert(kind.frame(rest, places[0]) == Some((places[1] - places[0], rate)));
    assert(audio::id3_tag(rest) is None);
    assert(rest.skip(0) =~= rest);
    lemma_places_are_far(rest, kind, places, rate, places.len() - 1);
    law_frames_that_stand_end_to_end_chain(rest, kind, places, rate, (rest.len() + 1) as int);
}

/// A sync word is believed where twelve frames stand end to end behind it, or fewer up to the end of the
/// data. It is not believed where something else follows before that.
pub proof fn law_sync_words_are_believed_by_their_chain(
    data: Seq<u8>,
    kind: AudioStream,
    places: Seq<int>,
    rate: u8,
)
    requires
        stand_end_to_end(data, kind, places, rate),
        places[0] == 0,
        places.len() >= 2,
    ensures
        ({
            let believed = match kind {
                AudioStream::Mpeg => audio::mp3_sync_ok(data),
                AudioStream::Adts => audio::aac_adts_ok(data),
            };
            let end = places.last();
            &&& places.len() > 12 ==> believed
            &&& data.len() == end ==> believed
            &&& (kind.frame(data, end) matches Some((length, other)) && other == rate && end + length
                > data.len()) ==> believed
            &&& places.len() <= 12 && data.len() >= end + 6 && kind.frame(data, end) is None
                ==> !believed
            &&& places.len() <= 12 && (kind.frame(data, end) matches Some((length, other)) && other
                != rate) ==> !believed
        }),
{
    assert(kind.frame(data, places[0]) == Some((places[1] - places[0], rate)));
    if places.len() > 12 {
        lemma_chain_is_capped(data, kind, places, rate, 0, None);
    } else {
        law_frames_that_stand_end_to_end_chain(data, kind, places, rate, 12);
    }
}

proof fn lemma_chain_is_capped(
    data: Seq<u8>,
    kind: AudioStream,
    places: Seq<int>,
    rate: u8,
    k: int,
    expected: Option<u8>,
)
    requires
        stand_end_to_end(data, kind, places, rate),
        places.len() > 12,
        0 <= k <= 12,
        expected is None || expected == Some(rate),
    ensures
        audio::chain_from(data, kind, 12, expected, places[k], k).frames >= 12,
    decreases 12 - k,
{
    if k < 12 {
        assert(kind.frame(data, places[k]) == Some((places[k + 1] - places[k], rate)));
        lemma_places_rise(data, kind, places, rate, k + 1);
        lemma_chain_is_capped(data, kind, places, rate, k + 1, Some(rate));
    }
}

/// Where no frame stands, no sync word is believed, as long as there are bytes enough to tell.
pub proof fn law_sync_words_without_a_frame_are_not_believed(data: Seq<u8>)
    requires
        data.len() >= 6,
    ensures
        audio::mpeg_frame(data, 0) is None ==> !audio::mp3_sync_ok(data),
        audio::adts_frame(data, 0) is None ==> !audio::aac_adts_ok(data),
{
}

} // verus!
