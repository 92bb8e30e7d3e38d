//! The records of the decompressed stream. A record starts with a tag byte,
//! and the tag fixes the layout of what follows; there is no index, so the
//! end of one record is found only by reading it.
use vstd::prelude::*;
use crate::error::Error;
use crate::error::Stage;
use crate::wire::copy_range;
use crate::wire::find_nul;
use crate::wire::get_u16;
use crate::wire::get_u32;
use crate::wire::le_u16;
use crate::wire::le_u32;
use crate::wire::nul_position;
use crate::wire::lemma_nul_position_bounds;
use crate::wire::lemma_nul_position_shift;
use crate::wire::lemma_nul_position_stable;

verus! {

/// Tag of the record that ends a replay. The last block is padded with zero
/// bytes, so the first of them is read as this record.
pub const TAG_END_OF_REPLAY: u8 = 0x00;

/// Tag of the record that opens the stream: the host and the game's settings.
pub const TAG_GAME_INFO: u8 = 0x10;

/// Tag of a player record.
pub const TAG_PLAYER_INFO: u8 = 0x16;

/// Tag of the record of a player leaving.
pub const TAG_PLAYER_LEFT: u8 = 0x17;

/// Tag of the slot table.
pub const TAG_SLOT_INFO: u8 = 0x19;

/// Tag of the record that starts the countdown.
pub const TAG_COUNT_DOWN_START: u8 = 0x1A;

/// Tag of the record that ends the countdown.
pub const TAG_COUNT_DOWN_END: u8 = 0x1B;

/// Tag of the record that starts the game.
pub const TAG_GAME_START: u8 = 0x1C;

/// Tag of a time slot that continues in the next one.
pub const TAG_TIME_SLOT_FRAGMENT: u8 = 0x1E;

/// Tag of a time slot.
pub const TAG_TIME_SLOT: u8 = 0x1F;

/// Tag of a chat message.
pub const TAG_CHAT_MESSAGE: u8 = 0x20;

/// Tag of the checksum record that follows a time slot.
pub const TAG_TIME_SLOT_ACK: u8 = 0x22;

/// Tag of the record that announces a forced end of the game.
pub const TAG_END_TIMER: u8 = 0x2F;

/// The flag byte of a chat message that carries a mode field.
pub const CHAT_FLAG_SCOPED: u8 = 0x20;

/// A record, with its byte strings as owned buffers. Strings are kept as the
/// bytes between the tag's fields and the terminating zero, undecoded.
#[derive(Clone, Debug, PartialEq, Eq)]
pub enum Record {
    GameInfo {
        word: u32,
        host_kind: u8,
        host_id: u8,
        host_name: Vec<u8>,
        host_extra: Vec<u8>,
        game_name: Vec<u8>,
        settings: Vec<u8>,
        player_count: u32,
        game_type: u32,
        language_id: u32,
    },
    PlayerInfo { player_id: u8, name: Vec<u8>, extra: Vec<u8>, unknown: u32 },
    PlayerLeft { reason: u32, player_id: u8, result: u32, unknown: u32 },
    SlotInfo { data: Vec<u8> },
    CountDownStart { unknown: u32 },
    CountDownEnd { unknown: u32 },
    GameStart { unknown: u32 },
    TimeSlot { fragment: bool, time_increment_ms: u16, actions: Vec<u8> },
    ChatMessage { player_id: u8, flags: u8, mode: Option<u32>, message: Vec<u8> },
    TimeSlotAck { checksum: Vec<u8> },
    EndTimer { over: u32, countdown_secs: u32 },
    EndOfReplay,
}

/// A record as a mathematical value: the same fields, with sequences for the
/// buffers.
pub enum RecordView {
    GameInfo {
        word: u32,
        host_kind: u8,
        host_id: u8,
        host_name: Seq<u8>,
        host_extra: Seq<u8>,
        game_name: Seq<u8>,
        settings: Seq<u8>,
        player_count: u32,
        game_type: u32,
        language_id: u32,
    },
    PlayerInfo { player_id: u8, name: Seq<u8>, extra: Seq<u8>, unknown: u32 },
    PlayerLeft { reason: u32, player_id: u8, result: u32, unknown: u32 },
    SlotInfo { data: Seq<u8> },
    CountDownStart { unknown: u32 },
    CountDownEnd { unknown: u32 },
    GameStart { unknown: u32 },
    TimeSlot { fragment: bool, time_increment_ms: u16, actions: Seq<u8> },
    ChatMessage { player_id: u8, flags: u8, mode: Option<u32>, message: Seq<u8> },
    TimeSlotAck { checksum: Seq<u8> },
    EndTimer { over: u32, countdown_secs: u32 },
    EndOfReplay,
}

impl View for Record {
    type V = RecordView;

    open spec fn view(&self) -> RecordView {
        match *self {
            Record::GameInfo {
                word,
                host_kind,
                host_id,
                host_name,
                host_extra,
                game_name,
                settings,
                player_count,
                game_type,
                language_id,
            } => RecordView::GameInfo {
                word,
                host_kind,
                host_id,
                host_name: host_name@,
                host_extra: host_extra@,
                game_name: game_name@,
                settings: settings@,
                player_count,
                game_type,
                language_id,
            },
            Record::PlayerInfo { player_id, name, extra, unknown } => RecordView::PlayerInfo {
                player_id,
                name: name@,
                extra: extra@,
                unknown,
            },
            Record::PlayerLeft { reason, player_id, result, unknown } => RecordView::PlayerLeft {
                reason,
                player_id,
                result,
                unknown,
            },
            Record::SlotInfo { data } => RecordView::SlotInfo { data: data@ },
            Record::CountDownStart { unknown } => RecordView::CountDownStart { unknown },
            Record::CountDownEnd { unknown } => RecordView::CountDownEnd { unknown },
            Record::GameStart { unknown } => RecordView::GameStart { unknown },
            Record::TimeSlot { fragment, time_increment_ms, actions } => RecordView::TimeSlot {
                fragment,
                time_increment_ms,
                actions: actions@,
            },
            Record::ChatMessage { player_id, flags, mode, message } => RecordView::ChatMessage {
                player_id,
                flags,
                mode,
                message: message@,
            },
            Record::TimeSlotAck { checksum } => RecordView::TimeSlotAck { checksum: checksum@ },
            Record::EndTimer { over, countdown_secs } => RecordView::EndTimer {
                over,
                countdown_secs,
            },
            Record::EndOfReplay => RecordView::EndOfReplay,
        }
    }
}

impl RecordView {
    /// The tag byte that a record of this kind starts with.
    pub open spec fn tag(self) -> u8 {
        match self {
            RecordView::GameInfo { .. } => 0x10,
            RecordView::PlayerInfo { .. } => 0x16,
            RecordView::PlayerLeft { .. } => 0x17,
            RecordView::SlotInfo { .. } => 0x19,
            RecordView::CountDownStart { .. } => 0x1A,
            RecordView::CountDownEnd { .. } => 0x1B,
            RecordView::GameStart { .. } => 0x1C,
            RecordView::TimeSlot { fragment, .. } => if fragment {
                0x1E
            } else {
                0x1F
            },
            RecordView::ChatMessage { .. } => 0x20,
            RecordView::TimeSlotAck { .. } => 0x22,
            RecordView::EndTimer { .. } => 0x2F,
            RecordView::EndOfReplay => 0x00,
        }
    }
}

impl Record {
    /// The tag byte that this record started with.
    pub fn type_id(&self) -> (r: u8)
        ensures
            r == self@.tag(),
    {
        match self {
            Record::GameInfo { .. } => TAG_GAME_INFO,
            Record::PlayerInfo { .. } => TAG_PLAYER_INFO,
            Record::PlayerLeft { .. } => TAG_PLAYER_LEFT,
            Record::SlotInfo { .. } => TAG_SLOT_INFO,
            Record::CountDownStart { .. } => TAG_COUNT_DOWN_START,
            Record::CountDownEnd { .. } => TAG_COUNT_DOWN_END,
            Record::GameStart { .. } => TAG_GAME_START,
            Record::TimeSlot { fragment, .. } => if *fragment {
                TAG_TIME_SLOT_FRAGMENT
            } else {
                TAG_TIME_SLOT
            },
            Record::ChatMessage { .. } => TAG_CHAT_MESSAGE,
            Record::TimeSlotAck { .. } => TAG_TIME_SLOT_ACK,
            Record::EndTimer { .. } => TAG_END_TIMER,
            Record::EndOfReplay => TAG_END_OF_REPLAY,
        }
    }
}

/// The outcome of reading one record: the record and the position behind it,
/// or the error.
pub enum Parsed {
    Item { record: RecordView, next: int },
    Fail(Error),
}

/// The outcome for a record at `pos` that the input ends inside of.
pub open spec fn truncated(pos: int) -> Parsed {
    Parsed::Fail(Error::Truncated { stage: Stage::Record, index: pos as usize })
}

/// The outcome for a record at `pos` with a field that contradicts the
/// record's length.
pub open spec fn malformed(s: Seq<u8>, pos: int) -> Parsed {
    Parsed::Fail(Error::MalformedRecordField { offset: pos as usize, tag: s[pos] })
}

/// A record that is a tag and one 32-bit field.
pub open spec fn parse_word(s: Seq<u8>, pos: int) -> Parsed {
    if pos + 5 > s.len() {
        truncated(pos)
    } else {
        let unknown = le_u32(s, pos + 1);
        Parsed::Item {
            record: if s[pos] == 0x1A {
                RecordView::CountDownStart { unknown }
            } else if s[pos] == 0x1B {
                RecordView::CountDownEnd { unknown }
            } else {
                RecordView::GameStart { unknown }
            },
            next: pos + 5,
        }
    }
}

/// The opening record: a 32-bit word whose low byte is the tag; the host's
/// player record (a kind byte, the player's number, the name up to its zero
/// byte, a length byte with that many bytes behind it); the game's name up to
/// its zero byte and one more byte; the encoded settings up to their zero
/// byte; and three 32-bit fields.
pub open spec fn parse_game_info(s: Seq<u8>, pos: int) -> Parsed {
    let len = s.len() as int;
    if pos + 6 > len {
        truncated(pos)
    } else {
        let name_end = nul_position(s, pos + 6, len);
        if name_end + 1 >= len {
            truncated(pos)
        } else {
            let extra = name_end + 2;
            let game = extra + s[name_end + 1];
            if game > len {
                truncated(pos)
            } else {
                let game_end = nul_position(s, game, len);
                if game_end + 1 >= len {
                    truncated(pos)
                } else {
                    let settings = game_end + 2;
                    let settings_end = nul_position(s, settings, len);
                    if settings_end + 13 > len {
                        truncated(pos)
                    } else {
                        Parsed::Item {
                            record: RecordView::GameInfo {
                                word: le_u32(s, pos),
                                host_kind: s[pos + 4],
                                host_id: s[pos + 5],
                                host_name: s.subrange(pos + 6, name_end),
                                host_extra: s.subrange(extra, game),
                                game_name: s.subrange(game, game_end),
                                settings: s.subrange(settings, settings_end),
                                player_count: le_u32(s, settings_end + 1),
                                game_type: le_u32(s, settings_end + 5),
                                language_id: le_u32(s, settings_end + 9),
                            },
                            next: settings_end + 13,
                        }
                    }
                }
            }
        }
    }
}

/// A player record: the player's number, the name up to its zero byte, a
/// length byte with that many bytes behind it, and four more bytes.
pub open spec fn parse_player_info(s: Seq<u8>, pos: int) -> Parsed {
    let len = s.len() as int;
    if pos + 2 > len {
        truncated(pos)
    } else {
        let end = nul_position(s, pos + 2, len);
        if end + 1 >= len {
            truncated(pos)
        } else {
            let extra = end + 2;
            let tail = extra + s[end + 1];
            if tail + 4 > len {
                truncated(pos)
            } else {
                Parsed::Item {
                    record: RecordView::PlayerInfo {
                        player_id: s[pos + 1],
                        name: s.subrange(pos + 2, end),
                        extra: s.subrange(extra, tail),
                        unknown: le_u32(s, tail),
                    },
                    next: tail + 4,
                }
            }
        }
    }
}

/// The record of a player leaving: reason, player, result and four more
/// bytes.
pub open spec fn parse_player_left(s: Seq<u8>, pos: int) -> Parsed {
    if pos + 14 > s.len() {
        truncated(pos)
    } else {
        Parsed::Item {
            record: RecordView::PlayerLeft {
                reason: le_u32(s, pos + 1),
                player_id: s[pos + 5],
                result: le_u32(s, pos + 6),
                unknown: le_u32(s, pos + 10),
            },
            next: pos + 14,
        }
    }
}

/// The slot table: a 16-bit length and that many bytes.
pub open spec fn parse_slot_info(s: Seq<u8>, pos: int) -> Parsed {
    if pos + 3 > s.len() {
        truncated(pos)
    } else if pos + 3 + le_u16(s, pos + 1) > s.len() {
        truncated(pos)
    } else {
        Parsed::Item {
            record: RecordView::SlotInfo {
                data: s.subrange(pos + 3, pos + 3 + le_u16(s, pos + 1)),
            },
            next: pos + 3 + le_u16(s, pos + 1),
        }
    }
}

/// A time slot: a 16-bit length, and in that many bytes the time increment
/// and the actions. A length under two leaves no room for the increment.
pub open spec fn parse_time_slot(s: Seq<u8>, pos: int) -> Parsed {
    if pos + 3 > s.len() {
        truncated(pos)
    } else if le_u16(s, pos + 1) < 2 {
        malformed(s, pos)
    } else if pos + 3 + le_u16(s, pos + 1) > s.len() {
        truncated(pos)
    } else {
        Parsed::Item {
            record: RecordView::TimeSlot {
                fragment: s[pos] == 0x1E,
                time_increment_ms: le_u16(s, pos + 3),
                actions: s.subrange(pos + 5, pos + 3 + le_u16(s, pos + 1)),
            },
            next: pos + 3 + le_u16(s, pos + 1),
        }
    }
}

/// A chat message: the player, a 16-bit length, and in that many bytes the
/// flags, a mode where the flags ask for one, and the text up to its zero
/// byte. A body too short for these, or without the zero byte, is malformed.
pub open spec fn parse_chat_message(s: Seq<u8>, pos: int) -> Parsed {
    if pos + 4 > s.len() {
        truncated(pos)
    } else {
        let end = pos + 4 + le_u16(s, pos + 2);
        if le_u16(s, pos + 2) < 1 {
            malformed(s, pos)
        } else if end > s.len() {
            truncated(pos)
        } else {
            let scoped = s[pos + 4] == 0x20;
            let text = if scoped {
                pos + 9
            } else {
                pos + 5
            };
            if text > end {
                malformed(s, pos)
            } else if nul_position(s, text, end) >= end {
                malformed(s, pos)
            } else {
                Parsed::Item {
                    record: RecordView::ChatMessage {
                        player_id: s[pos + 1],
                        flags: s[pos + 4],
                        mode: if scoped {
                            Some(le_u32(s, pos + 5))
                        } else {
                            None
                        },
                        message: s.subrange(text, nul_position(s, text, end)),
                    },
                    next: end,
                }
            }
        }
    }
}

/// The checksum record: a length byte and that many bytes.
pub open spec fn parse_time_slot_ack(s: Seq<u8>, pos: int) -> Parsed {
    if pos + 2 > s.len() {
        truncated(pos)
    } else if pos + 2 + s[pos + 1] > s.len() {
        truncated(pos)
    } else {
        Parsed::Item {
            record: RecordView::TimeSlotAck { checksum: s.subrange(pos + 2, pos + 2 + s[pos + 1]) },
            next: pos + 2 + s[pos + 1],
        }
    }
}

/// The end timer: two 32-bit fields.
pub open spec fn parse_end_timer(s: Seq<u8>, pos: int) -> Parsed {
    if pos + 9 > s.len() {
        truncated(pos)
    } else {
        Parsed::Item {
            record: RecordView::EndTimer {
                over: le_u32(s, pos + 1),
                countdown_secs: le_u32(s, pos + 5),
            },
            next: pos + 9,
        }
    }
}

/// What reading one record at `pos` of `s` gives. No byte at `pos` is a
/// truncation; a tag without a layout is an error, since nothing tells where
/// such a record ends.
pub open spec fn parse_at(s: Seq<u8>, pos: int) -> Parsed {
    if pos < 0 || pos >= s.len() {
        truncated(pos)
    } else if s[pos] == 0x00 {
        Parsed::Item { record: RecordView::EndOfReplay, next: pos + 1 }
    } else if s[pos] == 0x10 {
        parse_game_info(s, pos)
    } else if s[pos] == 0x16 {
        parse_player_info(s, pos)
    } else if s[pos] == 0x17 {
        parse_player_left(s, pos)
    } else if s[pos] == 0x19 {
        parse_slot_info(s, pos)
    } else if s[pos] == 0x1A || s[pos] == 0x1B || s[pos] == 0x1C {
        parse_word(s, pos)
    } else if s[pos] == 0x1E || s[pos] == 0x1F {
        parse_time_slot(s, pos)
    } else if s[pos] == 0x20 {
        parse_chat_message(s, pos)
    } else if s[pos] == 0x22 {
        parse_time_slot_ack(s, pos)
    } else if s[pos] == 0x2F {
        parse_end_timer(s, pos)
    } else {
        Parsed::Fail(Error::UnknownRecordTag { offset: pos as usize, tag: s[pos] })
    }
}

/// The outcome of `parse_record` as a mathematical value.
pub open spec fn parsed_view(r: Result<(Record, usize), Error>) -> Parsed {
    match r {
        Ok((record, next)) => Parsed::Item { record: record@, next: next as int },
        Err(e) => Parsed::Fail(e),
    }
}

/// Reads the opening record at `pos`.
fn read_game_info(data: &[u8], pos: usize) -> (r: Result<(Record, usize), Error>)
    requires
        pos < data@.len(),
    ensures
        parsed_view(r) == parse_game_info(data@, pos as int),
{
    let len = data.len();
    let short = Err(Error::Truncated { stage: Stage::Record, index: pos });
    if len - pos < 6 {
        return short;
    }
    let name_end = find_nul(data, pos + 6, len);
    if len - name_end <= 1 {
        return short;
    }
    let extra = name_end + 2;
    let size = data[name_end + 1] as usize;
    if len - extra < size {
        return short;
    }
    let game = extra + size;
    let game_end = find_nul(data, game, len);
    if len - game_end <= 1 {
        return short;
    }
    let settings = game_end + 2;
    let settings_end = find_nul(data, settings, len);
    if len - settings_end < 13 {
        return short;
    }
    Ok(
        (
            Record::GameInfo {
                word: get_u32(data, pos),
                host_kind: data[pos + 4],
                host_id: data[pos + 5],
                host_name: copy_range(data, pos + 6, name_end),
                host_extra: copy_range(data, extra, game),
                game_name: copy_range(data, game, game_end),
                settings: copy_range(data, settings, settings_end),
                player_count: get_u32(data, settings_end + 1),
                game_type: get_u32(data, settings_end + 5),
                language_id: get_u32(data, settings_end + 9),
            },
            settings_end + 13,
        ),
    )
}

/// Reads the player record at `pos`.
fn read_player_info(data: &[u8], pos: usize) -> (r: Result<(Record, usize), Error>)
    requires
        pos < data@.len(),
    ensures
        parsed_view(r) == parse_player_info(data@, pos as int),
{
    let len = data.len();
    let short = Err(Error::Truncated { stage: Stage::Record, index: pos });
    if len - pos < 2 {
        return short;
    }
    let end = find_nul(data, pos + 2, len);
    if len - end <= 1 {
        return short;
    }
    let extra = end + 2;
    let size = data[end + 1] as usize;
    if len - extra < size || len - extra - size < 4 {
        return short;
    }
    let tail = extra + size;
    Ok(
        (
            Record::PlayerInfo {
                player_id: data[pos + 1],
                name: copy_range(data, pos + 2, end),
                extra: copy_range(data, extra, tail),
                unknown: get_u32(data, tail),
            },
            tail + 4,
        ),
    )
}

/// Reads the chat message at `pos`.
fn read_chat_message(data: &[u8], pos: usize) -> (r: Result<(Record, usize), Error>)
    requires
        pos < data@.len(),
    ensures
        parsed_view(r) == parse_chat_message(data@, pos as int),
{
    let len = data.len();
    let short = Err(Error::Truncated { stage: Stage::Record, index: pos });
    let bad = Err(Error::MalformedRecordField { offset: pos, tag: data[pos] });
    if len - pos < 4 {
        return short;
    }
    let size = get_u16(data, pos + 2) as usize;
    if size < 1 {
        return bad;
    }
    if len - pos - 4 < size {
        return short;
    }
    let end = pos + 4 + size;
    let flags = data[pos + 4];
    let scoped = flags == CHAT_FLAG_SCOPED;
    if scoped && size < 5 {
        return bad;
    }
    let text = if scoped {
        pos + 9
    } else {
        pos + 5
    };
    let stop = find_nul(data, text, end);
    if stop >= end {
        return bad;
    }
    let mode = if scoped {
        Some(get_u32(data, pos + 5))
    } else {
        None
    };
    Ok(
        (
            Record::ChatMessage {
                player_id: data[pos + 1],
                flags,
                mode,
                message: copy_range(data, text, stop),
            },
            end,
        ),
    )
}

/// Reads the time slot at `pos`.
fn read_time_slot(data: &[u8], pos: usize) -> (r: Result<(Record, usize), Error>)
    requires
        pos < data@.len(),
    ensures
        parsed_view(r) == parse_time_slot(data@, pos as int),
{
    let len = data.len();
    let short = Err(Error::Truncated { stage: Stage::Record, index: pos });
    if len - pos < 3 {
        return short;
    }
    let size = get_u16(data, pos + 1) as usize;
    if size < 2 {
        return Err(Error::MalformedRecordField { offset: pos, tag: data[pos] });
    }
    if len - pos - 3 < size {
        return short;
    }
    let end = pos + 3 + size;
    Ok(
        (
            Record::TimeSlot {
                fragment: data[pos] == TAG_TIME_SLOT_FRAGMENT,
                time_increment_ms: get_u16(data, pos + 3),
                actions: copy_range(data, pos + 5, end),
            },
            end,
        ),
    )
}

/// Reads the slot table or the checksum record at `pos`: a length and that
/// many bytes.
fn read_sized(data: &[u8], pos: usize) -> (r: Result<(Record, usize), Error>)
    requires
        pos < data@.len(),
        data@[pos as int] == 0x19 || data@[pos as int] == 0x22,
    ensures
        parsed_view(r) == (if data@[pos as int] == 0x19 {
            parse_slot_info(data@, pos as int)
        } else {
            parse_time_slot_ack(data@, pos as int)
        }),
{
    let len = data.len();
    let short = Err(Error::Truncated { stage: Stage::Record, index: pos });
    if data[pos] == TAG_SLOT_INFO {
        if len - pos < 3 {
            return short;
        }
        let size = get_u16(data, pos + 1) as usize;
        if len - pos - 3 < size {
            return short;
        }
        let end = pos + 3 + size;
        Ok((Record::SlotInfo { data: copy_range(data, pos + 3, end) }, end))
    } else {
        if len - pos < 2 {
            return short;
        }
        let size = data[pos + 1] as usize;
        if len - pos - 2 < size {
            return short;
        }
        let end = pos + 2 + size;
        Ok((Record::TimeSlotAck { checksum: copy_range(data, pos + 2, end) }, end))
    }
}

/// Reads a record of fixed length at `pos`.
fn read_fixed(data: &[u8], pos: usize) -> (r: Result<(Record, usize), Error>)
    requires
        pos < data@.len(),
        data@[pos as int] == 0x17 || data@[pos as int] == 0x1A || data@[pos as int] == 0x1B
            || data@[pos as int] == 0x1C || data@[pos as int] == 0x2F,
    ensures
        parsed_view(r) == (if data@[pos as int] == 0x17 {
            parse_player_left(data@, pos as int)
        } else if data@[pos as int] == 0x2F {
            parse_end_timer(data@, pos as int)
        } else {
            parse_word(data@, pos as int)
        }),
{
    let len = data.len();
    let tag = data[pos];
    let short = Err(Error::Truncated { stage: Stage::Record, index: pos });
    if tag == TAG_PLAYER_LEFT {
        if len - pos < 14 {
            return short;
        }
        Ok(
            (
                Record::PlayerLeft {
                    reason: get_u32(data, pos + 1),
                    player_id: data[pos + 5],
                    result: get_u32(data, pos + 6),
                    unknown: get_u32(data, pos + 10),
                },
                pos + 14,
            ),
        )
    } else if tag == TAG_END_TIMER {
        if len - pos < 9 {
            return short;
        }
        Ok(
            (
                Record::EndTimer {
                    over: get_u32(data, pos + 1),
                    countdown_secs: get_u32(data, pos + 5),
                },
                pos + 9,
            ),
        )
    } else {
        if len - pos < 5 {
            return short;
        }
        let unknown = get_u32(data, pos + 1);
        let record = if tag == TAG_COUNT_DOWN_START {
            Record::CountDownStart { unknown }
        } else if tag == TAG_COUNT_DOWN_END {
            Record::CountDownEnd { unknown }
        } else {
            Record::GameStart { unknown }
        };
        Ok((record, pos + 5))
    }
}

/// Reads the record that starts at `pos` of `data`, and gives it with the
/// position of the byte behind it.
pub fn parse_record(data: &[u8], pos: usize) -> (r: Result<(Record, usize), Error>)
    ensures
        parsed_view(r) == parse_at(data@, pos as int),
{
    if pos >= data.len() {
        return Err(Error::Truncated { stage: Stage::Record, index: pos });
    }
    let tag = data[pos];
    if tag == TAG_END_OF_REPLAY {
        Ok((Record::EndOfReplay, pos + 1))
    } else if tag == TAG_GAME_INFO {
        read_game_info(data, pos)
    } else if tag == TAG_PLAYER_INFO {
        read_player_info(data, pos)
    } else if tag == TAG_PLAYER_LEFT || tag == TAG_COUNT_DOWN_START || tag == TAG_COUNT_DOWN_END
        || tag == TAG_GAME_START || tag == TAG_END_TIMER {
        read_fixed(data, pos)
    } else if tag == TAG_SLOT_INFO || tag == TAG_TIME_SLOT_ACK {
        read_sized(data, pos)
    } else if tag == TAG_TIME_SLOT_FRAGMENT || tag == TAG_TIME_SLOT {
        read_time_slot(data, pos)
    } else if tag == TAG_CHAT_MESSAGE {
        read_chat_message(data, pos)
    } else {
        Err(Error::UnknownRecordTag { offset: pos, tag })
    }
}

/// A record that was read lies inside the input and is not empty.
pub proof fn lemma_item_bounds(s: Seq<u8>, pos: int)
    requires
        parse_at(s, pos) is Item,
    ensures
        0 <= pos < parse_at(s, pos)->next <= s.len(),
{
    let len = s.len() as int;
    if s[pos] == 0x16 {
        lemma_nul_position_bounds(s, pos + 2, len);
    } else if s[pos] == 0x10 {
        lemma_game_info_bounds(s, pos);
    }
}

/// The fields of an opening record lie in file order inside the input.
proof fn lemma_game_info_bounds(s: Seq<u8>, pos: int)
    requires
        0 <= pos,
        parse_game_info(s, pos) is Item,
    ensures
        ({
            let len = s.len() as int;
            let name_end = nul_position(s, pos + 6, len);
            let game = name_end + 2 + s[name_end + 1];
            let game_end = nul_position(s, game, len);
            let settings_end = nul_position(s, game_end + 2, len);
            &&& pos + 6 <= name_end < game <= game_end
            &&& game_end + 2 <= settings_end
            &&& settings_end + 13 <= len
            &&& parse_game_info(s, pos)->next == settings_end + 13
        }),
{
    let len = s.len() as int;
    lemma_nul_position_bounds(s, pos + 6, len);
    let name_end = nul_position(s, pos + 6, len);
    let game = name_end + 2 + s[name_end + 1];
    lemma_nul_position_bounds(s, game, len);
    let game_end = nul_position(s, game, len);
    lemma_nul_position_bounds(s, game_end + 2, len);
}

/// `s` is the start of `t`.
pub open spec fn is_prefix(s: Seq<u8>, t: Seq<u8>) -> bool {
    s.len() <= t.len() && forall|i: int| 0 <= i < s.len() ==> s[i] == t[i]
}

/// An opening record that `s` holds whole is read the same from any `t`
/// that agrees with `s` up to the record's end and is `size` bytes long.
proof fn lemma_game_info_stable(s: Seq<u8>, t: Seq<u8>, pos: int, size: int)
    requires
        0 <= pos,
        parse_game_info(s, pos) is Item,
        size == t.len(),
        parse_game_info(s, pos)->next <= size,
        forall|i: int| 0 <= i < parse_game_info(s, pos)->next ==> s[i] == t[i],
    ensures
        parse_game_info(t, pos) == parse_game_info(s, pos),
{
    let len = s.len() as int;
    lemma_game_info_bounds(s, pos);
    let name_end = nul_position(s, pos + 6, len);
    lemma_nul_position_stable(s, t, pos + 6, len, size);
    let game = name_end + 2 + s[name_end + 1];
    let game_end = nul_position(s, game, len);
    lemma_nul_position_stable(s, t, game, len, size);
    let settings = game_end + 2;
    let settings_end = nul_position(s, settings, len);
    lemma_nul_position_stable(s, t, settings, len, size);
    assert(s.subrange(pos + 6, name_end) =~= t.subrange(pos + 6, name_end));
    assert(s.subrange(name_end + 2, game) =~= t.subrange(name_end + 2, game));
    assert(s.subrange(game, game_end) =~= t.subrange(game, game_end));
    assert(s.subrange(settings, settings_end) =~= t.subrange(settings, settings_end));
}

/// A player record that `s` holds whole is read the same from any `t` that
/// agrees with `s` up to the record's end.
proof fn lemma_player_info_stable(s: Seq<u8>, t: Seq<u8>, pos: int)
    requires
        0 <= pos,
        parse_player_info(s, pos) is Item,
        parse_player_info(s, pos)->next <= t.len(),
        forall|i: int| 0 <= i < parse_player_info(s, pos)->next ==> s[i] == t[i],
    ensures
        parse_player_info(t, pos) == parse_player_info(s, pos),
{
    let len = s.len() as int;
    lemma_nul_position_bounds(s, pos + 2, len);
    let end = nul_position(s, pos + 2, len);
    lemma_nul_position_stable(s, t, pos + 2, len, t.len() as int);
    let tail = end + 2 + s[end + 1];
    assert(s.subrange(pos + 2, end) =~= t.subrange(pos + 2, end));
    assert(s.subrange(end + 2, tail) =~= t.subrange(end + 2, tail));
}

/// A chat message whose body `s` holds whole is read the same, record or
/// error, from any `t` that agrees with `s` up to the body's end.
proof fn lemma_chat_message_stable(s: Seq<u8>, t: Seq<u8>, pos: int)
    requires
        0 <= pos,
        pos + 4 <= s.len(),
        pos + 4 <= t.len(),
        s[pos] == t[pos] && s[pos + 2] == t[pos + 2] && s[pos + 3] == t[pos + 3],
        le_u16(s, pos + 2) >= 1 ==> pos + 4 + le_u16(s, pos + 2) <= s.len(),
        le_u16(s, pos + 2) >= 1 ==> pos + 4 + le_u16(s, pos + 2) <= t.len(),
        forall|i: int| 0 <= i < pos + 4 + le_u16(s, pos + 2) && i < s.len() ==> s[i] == t[i],
    ensures
        parse_chat_message(t, pos) == parse_chat_message(s, pos),
{
    let end = pos + 4 + le_u16(s, pos + 2);
    if le_u16(s, pos + 2) >= 1 {
        let text = if s[pos + 4] == 0x20 {
            pos + 9
        } else {
            pos + 5
        };
        if text <= end {
            lemma_nul_position_bounds(s, text, end);
            lemma_nul_position_bounds(t, text, end);
            if nul_position(s, text, end) < end {
                lemma_nul_position_stable(s, t, text, end, end);
                let stop = nul_position(s, text, end);
                assert(s.subrange(text, stop) =~= t.subrange(text, stop));
            } else if nul_position(t, text, end) < end {
                lemma_nul_position_stable(t, s, text, end, end);
            }
        }
    }
}

/// A record with a length in front of its bytes, held whole by `s`, is read
/// the same from any `t` that agrees with `s` up to the record's end.
proof fn lemma_sized_stable(s: Seq<u8>, t: Seq<u8>, pos: int)
    requires
        0 <= pos < s.len(),
        s[pos] == 0x19 || s[pos] == 0x22 || s[pos] == 0x1E || s[pos] == 0x1F,
        parse_at(s, pos) is Item,
        parse_at(s, pos)->next <= t.len(),
        forall|i: int| 0 <= i < parse_at(s, pos)->next ==> s[i] == t[i],
    ensures
        parse_at(t, pos) == parse_at(s, pos),
{
    let tag = s[pos];
    if tag == 0x19 {
        let end = pos + 3 + le_u16(s, pos + 1);
        assert(s.subrange(pos + 3, end) =~= t.subrange(pos + 3, end));
    } else if tag == 0x22 {
        let end = pos + 2 + s[pos + 1];
        assert(s.subrange(pos + 2, end) =~= t.subrange(pos + 2, end));
    } else {
        let end = pos + 3 + le_u16(s, pos + 1);
        assert(s.subrange(pos + 5, end) =~= t.subrange(pos + 5, end));
    }
}

/// A record depends only on its own bytes: one that `s` holds whole is read
/// the same from any `t` that agrees with `s` up to the record's end.
pub proof fn lemma_record_depends_on_own_bytes(s: Seq<u8>, t: Seq<u8>, pos: int)
    requires
        parse_at(s, pos) is Item,
        parse_at(s, pos)->next <= t.len(),
        forall|i: int| 0 <= i < parse_at(s, pos)->next ==> s[i] == t[i],
    ensures
        parse_at(t, pos) == parse_at(s, pos),
{
    lemma_item_bounds(s, pos);
    let tag = s[pos];
    assert(t[pos] == tag);
    if tag == 0x10 {
        lemma_game_info_stable(s, t, pos, t.len() as int);
    } else if tag == 0x16 {
        lemma_player_info_stable(s, t, pos);
    } else if tag == 0x19 || tag == 0x22 || tag == 0x1E || tag == 0x1F {
        lemma_sized_stable(s, t, pos);
    } else if tag == 0x20 {
        lemma_chat_message_stable(s, t, pos);
    }
}

/// Reading a record looks only at the record's own bytes: an outcome other
/// than a truncation stays the same when more input follows.
pub proof fn lemma_parse_prefix_stable(s: Seq<u8>, t: Seq<u8>, pos: int)
    requires
        is_prefix(s, t),
        parse_at(s, pos) != truncated(pos),
    ensures
        parse_at(t, pos) == parse_at(s, pos),
{
    assert(0 <= pos < s.len());
    assert(t[pos] == s[pos]);
    if parse_at(s, pos) is Item {
        lemma_item_bounds(s, pos);
        lemma_record_depends_on_own_bytes(s, t, pos);
    } else if s[pos] == 0x20 {
        lemma_chat_message_stable(s, t, pos);
    } else if s[pos] == 0x1E || s[pos] == 0x1F {
        assert(le_u16(s, pos + 1) == le_u16(t, pos + 1));
    }
}

/// Cutting the input anywhere inside a record makes reading that record a
/// truncation, and nothing else: the cut is noticed at the record it falls
/// in.
pub proof fn lemma_cut_inside_record(s: Seq<u8>, pos: int, cut: int)
    requires
        parse_at(s, pos) is Item,
        pos <= cut < parse_at(s, pos)->next,
    ensures
        parse_at(s.subrange(0, cut), pos) == truncated(pos),
{
    lemma_item_bounds(s, pos);
    let head = s.subrange(0, cut);
    if parse_at(head, pos) != truncated(pos) {
        lemma_parse_prefix_stable(head, s, pos);
        lemma_item_bounds(head, pos);
    }
}

/// A cut behind a record leaves the record as it was.
pub proof fn lemma_cut_behind_record(s: Seq<u8>, pos: int, cut: int)
    requires
        parse_at(s, pos) is Item,
        parse_at(s, pos)->next <= cut <= s.len(),
    ensures
        parse_at(s.subrange(0, cut), pos) == parse_at(s, pos),
{
    lemma_record_depends_on_own_bytes(s, s.subrange(0, cut), pos);
}

/// The error `e` of a record read in a part of the stream, with its offset
/// counted from the start of the stream: the part starts at `from`.
pub open spec fn rebased(e: Error, from: int) -> Error {
    match e {
        Error::Truncated { stage: Stage::Record, index } => Error::Truncated {
            stage: Stage::Record,
            index: (index + from) as usize,
        },
        Error::MalformedRecordField { offset, tag } => Error::MalformedRecordField {
            offset: (offset + from) as usize,
            tag,
        },
        Error::UnknownRecordTag { offset, tag } => Error::UnknownRecordTag {
            offset: (offset + from) as usize,
            tag,
        },
        other => other,
    }
}

/// The outcome `p` of reading in a part of the stream that starts at `from`,
/// with positions counted from the start of the stream.
pub open spec fn shifted(p: Parsed, from: int) -> Parsed {
    match p {
        Parsed::Item { record, next } => Parsed::Item { record, next: next + from },
        Parsed::Fail(e) => Parsed::Fail(rebased(e, from)),
    }
}

/// The bytes before an opening record do not matter to it.
proof fn lemma_game_info_shift(s: Seq<u8>, from: int, pos: int)
    requires
        0 <= from <= pos < s.len() <= usize::MAX,
    ensures
        parse_game_info(s, pos) == shifted(
            parse_game_info(s.subrange(from, s.len() as int), pos - from),
            from,
        ),
{
    let len = s.len() as int;
    let w = s.subrange(from, len);
    let q = pos - from;
    if pos + 6 <= len {
        lemma_nul_position_shift(s, from, pos + 6, len);
        lemma_nul_position_bounds(s, pos + 6, len);
        let name_end = nul_position(s, pos + 6, len);
        if name_end + 1 < len {
            assert(w[name_end + 1 - from] == s[name_end + 1]);
            let game = name_end + 2 + s[name_end + 1];
            if game <= len {
                lemma_nul_position_shift(s, from, game, len);
                lemma_nul_position_bounds(s, game, len);
                let game_end = nul_position(s, game, len);
                if game_end + 1 < len {
                    let settings = game_end + 2;
                    lemma_nul_position_shift(s, from, settings, len);
                    lemma_nul_position_bounds(s, settings, len);
                    let settings_end = nul_position(s, settings, len);
                    if settings_end + 13 <= len {
                        assert(w.subrange(q + 6, name_end - from) =~= s.subrange(
                            pos + 6,
                            name_end,
                        ));
                        assert(w.subrange(name_end + 2 - from, game - from) =~= s.subrange(
                            name_end + 2,
                            game,
                        ));
                        assert(w.subrange(game - from, game_end - from) =~= s.subrange(
                            game,
                            game_end,
                        ));
                        assert(w.subrange(settings - from, settings_end - from) =~= s.subrange(
                            settings,
                            settings_end,
                        ));
                    }
                }
            }
        }
    }
}

/// The bytes before a player record do not matter to it.
proof fn lemma_player_info_shift(s: Seq<u8>, from: int, pos: int)
    requires
        0 <= from <= pos < s.len() <= usize::MAX,
    ensures
        parse_player_info(s, pos) == shifted(
            parse_player_info(s.subrange(from, s.len() as int), pos - from),
            from,
        ),
{
    let len = s.len() as int;
    let w = s.subrange(from, len);
    if pos + 2 <= len {
        lemma_nul_position_shift(s, from, pos + 2, len);
        lemma_nul_position_bounds(s, pos + 2, len);
        let end = nul_position(s, pos + 2, len);
        if end + 1 < len {
            assert(w[end + 1 - from] == s[end + 1]);
            let tail = end + 2 + s[end + 1];
            if tail + 4 <= len {
                assert(w.subrange(pos + 2 - from, end - from) =~= s.subrange(pos + 2, end));
                assert(w.subrange(end + 2 - from, tail - from) =~= s.subrange(end + 2, tail));
            }
        }
    }
}

/// The bytes before a chat message do not matter to it.
proof fn lemma_chat_message_shift(s: Seq<u8>, from: int, pos: int)
    requires
        0 <= from <= pos < s.len() <= usize::MAX,
    ensures
        parse_chat_message(s, pos) == shifted(
            parse_chat_message(s.subrange(from, s.len() as int), pos - from),
            from,
        ),
{
    let len = s.len() as int;
    let w = s.subrange(from, len);
    let q = pos - from;
    if pos + 4 <= len {
        assert(le_u16(w, q + 2) == le_u16(s, pos + 2));
        let end = pos + 4 + le_u16(s, pos + 2);
        if le_u16(s, pos + 2) >= 1 && end <= len {
            assert(w[q + 4] == s[pos + 4]);
            let text = if s[pos + 4] == 0x20 {
                pos + 9
            } else {
                pos + 5
            };
            if text <= end {
                lemma_nul_position_bounds(s, text, end);
                lemma_nul_position_shift(s.subrange(0, end), from, text, end);
                lemma_nul_position_stable_range(s, s.subrange(0, end), text, end);
                lemma_nul_position_stable_range(
                    w,
                    s.subrange(0, end).subrange(from, end),
                    text - from,
                    end - from,
                );
                let stop = nul_position(s, text, end);
                if stop < end {
                    assert(w.subrange(text - from, stop - from) =~= s.subrange(text, stop));
                }
            }
        }
    }
}

/// A search looks only at the bytes in its range: two sequences that agree
/// there give the same answer.
proof fn lemma_nul_position_stable_range(s: Seq<u8>, t: Seq<u8>, pos: int, limit: int)
    requires
        0 <= pos <= limit,
        limit <= s.len(),
        limit <= t.len(),
        forall|i: int| pos <= i < limit ==> s[i] == t[i],
    ensures
        nul_position(s, pos, limit) == nul_position(t, pos, limit),
    decreases limit - pos,
{
    if pos < limit && s[pos] != 0 {
        lemma_nul_position_stable_range(s, t, pos + 1, limit);
    }
}

/// The bytes before a slot table do not matter to it.
proof fn lemma_slot_info_shift(s: Seq<u8>, from: int, pos: int)
    requires
        0 <= from <= pos < s.len() <= usize::MAX,
    ensures
        parse_slot_info(s, pos) == shifted(
            parse_slot_info(s.subrange(from, s.len() as int), pos - from),
            from,
        ),
{
    let len = s.len() as int;
    let w = s.subrange(from, len);
    let q = pos - from;
    if pos + 3 <= len {
        assert(w[q + 1] == s[pos + 1] && w[q + 2] == s[pos + 2]);
        let end = pos + 3 + le_u16(s, pos + 1);
        if end <= len {
            assert(w.subrange(q + 3, end - from) =~= s.subrange(pos + 3, end));
        }
    }
}

/// The bytes before a time slot do not matter to it.
proof fn lemma_time_slot_shift(s: Seq<u8>, from: int, pos: int)
    requires
        0 <= from <= pos < s.len() <= usize::MAX,
    ensures
        parse_time_slot(s, pos) == shifted(
            parse_time_slot(s.subrange(from, s.len() as int), pos - from),
            from,
        ),
{
    let len = s.len() as int;
    let w = s.subrange(from, len);
    let q = pos - from;
    assert(w[q] == s[pos]);
    if pos + 3 <= len {
        assert(w[q + 1] == s[pos + 1] && w[q + 2] == s[pos + 2]);
        let end = pos + 3 + le_u16(s, pos + 1);
        if end <= len && le_u16(s, pos + 1) >= 2 {
            assert(w[q + 3] == s[pos + 3] && w[q + 4] == s[pos + 4]);
            assert(w.subrange(q + 5, end - from) =~= s.subrange(pos + 5, end));
        }
    }
}

/// The bytes before a checksum record do not matter to it.
proof fn lemma_time_slot_ack_shift(s: Seq<u8>, from: int, pos: int)
    requires
        0 <= from <= pos < s.len() <= usize::MAX,
    ensures
        parse_time_slot_ack(s, pos) == shifted(
            parse_time_slot_ack(s.subrange(from, s.len() as int), pos - from),
            from,
        ),
{
    let len = s.len() as int;
    let w = s.subrange(from, len);
    let q = pos - from;
    if pos + 2 <= len {
        assert(w[q + 1] == s[pos + 1]);
        let end = pos + 2 + s[pos + 1];
        if end <= len {
            assert(w.subrange(q + 2, end - from) =~= s.subrange(pos + 2, end));
        }
    }
}

/// Reading a record in the part of the stream from `from` on gives what
/// reading it in the whole stream gives, with positions counted from `from`:
/// the bytes before a record do not matter to it.
pub proof fn lemma_parse_shift(s: Seq<u8>, from: int, pos: int)
    requires
        0 <= from <= pos <= usize::MAX,
        from <= s.len() <= usize::MAX,
    ensures
        parse_at(s, pos) == shifted(
            parse_at(s.subrange(from, s.len() as int), pos - from),
            from,
        ),
{
    let len = s.len() as int;
    let w = s.subrange(from, len);
    let q = pos - from;
    if pos < len {
        let tag = s[pos];
        assert(w[q] == tag);
        if tag == 0x10 {
            lemma_game_info_shift(s, from, pos);
        } else if tag == 0x16 {
            lemma_player_info_shift(s, from, pos);
        } else if tag == 0x19 {
            lemma_slot_info_shift(s, from, pos);
        } else if tag == 0x22 {
            lemma_time_slot_ack_shift(s, from, pos);
        } else if tag == 0x1E || tag == 0x1F {
            lemma_time_slot_shift(s, from, pos);
        } else if tag == 0x20 {
            lemma_chat_message_shift(s, from, pos);
        } else if tag == 0x17 {
            if pos + 14 <= len {
                assert(le_u32(w, q + 1) == le_u32(s, pos + 1));
                assert(le_u32(w, q + 6) == le_u32(s, pos + 6));
                assert(le_u32(w, q + 10) == le_u32(s, pos + 10));
            }
        } else if tag == 0x2F {
            if pos + 9 <= len {
                assert(le_u32(w, q + 1) == le_u32(s, pos + 1));
                assert(le_u32(w, q + 5) == le_u32(s, pos + 5));
            }
        } else if tag == 0x1A || tag == 0x1B || tag == 0x1C {
            if pos + 5 <= len {
                assert(le_u32(w, q + 1) == le_u32(s, pos + 1));
            }
        }
    }
}

} // verus!
