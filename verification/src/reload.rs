//! What is read back from a saved container: the model that was saved.
//!
//! A field that does not fit the bits that the save has for it is cut when
//! it is written, and a name is kept as ten bytes. So the law is stated of a
//! model whose fields fit, and says of each name that its ten bytes are read
//! back.

use crate::active::{
    active_bits, lemma_active_bits_at, lemma_active_bits_len, lemma_active_read_back,
};
use crate::bits::{
    bits_of, le_bits, lemma_bits_of_subrange, lemma_bits_of_with_bytes, lemma_bytes_of_subrange,
    lemma_le_bits_len, lemma_le_value_of_bits, lemma_splice, lemma_with_bits_len, splice,
    with_bits, with_bytes,
};
use crate::encoding::{decode_string, save_bytes};
use crate::offsets::{active, general, save, stored};
use crate::save::{
    ActiveSaveBlock, General, MIN_SAVE_LEN, SkySave, head_of, le_bytes4, lemma_mirrored,
    lemma_with_checksums, lemma_word_of_le_bytes4, lemma_written_len, mirrored, unsigned32,
    with_checksums,
};
use crate::stored::{
    lemma_stored_bits_at, lemma_stored_bits_len, lemma_stored_read_back, stored_bits,
};
use vstd::prelude::*;

verus! {

impl General {
    /// The record is what is read back where `written` was written: every
    /// number is the same, and the name is the ten characters of the bytes
    /// kept for the name of `written`.
    pub open spec fn reads_back(&self, written: &General) -> bool {
        &&& self.team_name@ == decode_string(save_bytes(written.team_name@))
        &&& self.held_money == written.held_money
        &&& self.sp_episode_held_money == written.sp_episode_held_money
        &&& self.stored_money == written.stored_money
        &&& self.number_of_adventures == written.number_of_adventures
        &&& self.explorer_rank == written.explorer_rank
    }

    /// The bits of `bits` with the record written to the block.
    #[verifier::opaque]
    spec fn written_bits(&self, bits: Seq<bool>, block: ActiveSaveBlock) -> Seq<bool> {
        let at = block.start();
        let named = splice(
            bits,
            8 * (at + general::TEAM_NAME.start),
            bits_of(save_bytes(self.team_name@)),
        );
        let held = splice(
            named,
            8 * at + general::HELD_MONEY_BITS.start,
            le_bits(self.held_money as nat, 24),
        );
        let sp_held = splice(
            held,
            8 * at + general::SP_EPISODE_HELD_MONEY_BITS.start,
            le_bits(self.sp_episode_held_money as nat, 24),
        );
        let stored = splice(
            sp_held,
            8 * at + general::STORED_MONEY_BITS.start,
            le_bits(self.stored_money as nat, 24),
        );
        let counted = splice(
            stored,
            8 * (at + general::NUMBER_OF_ADVENTURERS.start),
            bits_of(le_bytes4(unsigned32(self.number_of_adventures as int))),
        );
        splice(
            counted,
            8 * (at + general::EXPLORER_RANK.start),
            bits_of(le_bytes4(self.explorer_rank as nat)),
        )
    }
}

impl SkySave {
    /// Every field of the model fits the bits that the save has for it.
    pub open spec fn fits(&self) -> bool {
        &&& self.general.fits()
        &&& forall|i: int| 0 <= i < self.stored().len() ==> (#[trigger] self.stored()[i]).fits()
        &&& forall|i: int| 0 <= i < self.active().len() ==> (#[trigger] self.active()[i]).fits()
    }

    /// The model is what is read back where `written` was saved.
    pub open spec fn reads_back(&self, written: &SkySave) -> bool {
        &&& self.general.reads_back(&written.general)
        &&& self.stored().len() == written.stored().len()
        &&& self.active().len() == written.active().len()
        &&& forall|i: int|
            0 <= i < self.stored().len() ==> (#[trigger] self.stored()[i]).reads_back(
                &written.stored()[i],
            )
        &&& forall|i: int|
            0 <= i < self.active().len() ==> (#[trigger] self.active()[i]).reads_back(
                &written.active()[i],
            )
    }

    /// The bits of the first 128 KiB of a saved model.
    #[verifier::opaque]
    spec fn saved_bits(&self) -> Seq<bool> {
        bits_of(head_of(self.saved()))
    }

    /// The bits of the first 128 KiB of the model with its records written to
    /// the active block.
    #[verifier::opaque]
    spec fn written_bits(&self) -> Seq<bool> {
        let at = self.active_save_block.start();
        splice(
            splice(
                self.general.written_bits(bits_of(head_of(self.data@)), self.active_save_block),
                8 * at + stored::STORED_PKM_BITS.start,
                stored_bits(self.stored()),
            ),
            8 * at + active::ACTIVE_PKM_BITS.start,
            active_bits(self.active()),
        )
    }
}

/// The bits of a container with the general record written to it.
proof fn lemma_general_written_bits(g: General, data: Seq<u8>, block: ActiveSaveBlock)
    requires
        data.len() >= MIN_SAVE_LEN,
    ensures
        bits_of(g.written(data, block)) == g.written_bits(bits_of(data), block),
        g.written_bits(bits_of(data), block).len() == 8 * data.len(),
{
    reveal(General::written_bits);
    let at = block.start();
    let named = with_bytes(data, at + general::TEAM_NAME.start, save_bytes(g.team_name@));
    lemma_bits_of_with_bytes(data, at + general::TEAM_NAME.start, save_bytes(g.team_name@));
    lemma_le_bits_len(g.held_money as nat, 24);
    lemma_le_bits_len(g.sp_episode_held_money as nat, 24);
    lemma_le_bits_len(g.stored_money as nat, 24);
    let held = with_bits(
        named,
        8 * at + general::HELD_MONEY_BITS.start,
        le_bits(g.held_money as nat, 24),
    );
    lemma_with_bits_len(
        named,
        8 * at + general::HELD_MONEY_BITS.start,
        le_bits(g.held_money as nat, 24),
    );
    let sp_held = with_bits(
        held,
        8 * at + general::SP_EPISODE_HELD_MONEY_BITS.start,
        le_bits(g.sp_episode_held_money as nat, 24),
    );
    lemma_with_bits_len(
        held,
        8 * at + general::SP_EPISODE_HELD_MONEY_BITS.start,
        le_bits(g.sp_episode_held_money as nat, 24),
    );
    let stored = with_bits(
        sp_held,
        8 * at + general::STORED_MONEY_BITS.start,
        le_bits(g.stored_money as nat, 24),
    );
    lemma_with_bits_len(
        sp_held,
        8 * at + general::STORED_MONEY_BITS.start,
        le_bits(g.stored_money as nat, 24),
    );
    let counted = with_bytes(
        stored,
        at + general::NUMBER_OF_ADVENTURERS.start,
        le_bytes4(unsigned32(g.number_of_adventures as int)),
    );
    lemma_bits_of_with_bytes(
        stored,
        at + general::NUMBER_OF_ADVENTURERS.start,
        le_bytes4(unsigned32(g.number_of_adventures as int)),
    );
    lemma_bits_of_with_bytes(
        counted,
        at + general::EXPLORER_RANK.start,
        le_bytes4(g.explorer_rank as nat),
    );
}

/// What lies in the place of each field after the general record is written.
proof fn lemma_general_written_fields(g: General, bits: Seq<bool>, block: ActiveSaveBlock)
    requires
        bits.len() == 8 * MIN_SAVE_LEN,
    ensures
        ({
            let at = block.start();
            let out = g.written_bits(bits, block);
            &&& out.len() == bits.len()
            &&& out.subrange(8 * (at + general::TEAM_NAME.start), 8 * (at + general::TEAM_NAME.end))
                == bits_of(save_bytes(g.team_name@))
            &&& out.subrange(
                8 * at + general::HELD_MONEY_BITS.start,
                8 * at + general::HELD_MONEY_BITS.end,
            ) == le_bits(g.held_money as nat, 24)
            &&& out.subrange(
                8 * at + general::SP_EPISODE_HELD_MONEY_BITS.start,
                8 * at + general::SP_EPISODE_HELD_MONEY_BITS.end,
            ) == le_bits(g.sp_episode_held_money as nat, 24)
            &&& out.subrange(
                8 * at + general::STORED_MONEY_BITS.start,
                8 * at + general::STORED_MONEY_BITS.end,
            ) == le_bits(g.stored_money as nat, 24)
            &&& out.subrange(
                8 * (at + general::NUMBER_OF_ADVENTURERS.start),
                8 * (at + general::NUMBER_OF_ADVENTURERS.end),
            ) == bits_of(le_bytes4(unsigned32(g.number_of_adventures as int)))
            &&& out.subrange(
                8 * (at + general::EXPLORER_RANK.start),
                8 * (at + general::EXPLORER_RANK.end),
            ) == bits_of(le_bytes4(g.explorer_rank as nat))
            &&& forall|i: int|
                0 <= i < 8 * (at + general::NUMBER_OF_ADVENTURERS.start) ==> out[i] == bits[i]
        }),
{
    reveal(General::written_bits);
    let at = block.start();
    let name = bits_of(save_bytes(g.team_name@));
    let held_money = le_bits(g.held_money as nat, 24);
    let sp_money = le_bits(g.sp_episode_held_money as nat, 24);
    let stored_money = le_bits(g.stored_money as nat, 24);
    let adventures = bits_of(le_bytes4(unsigned32(g.number_of_adventures as int)));
    let rank = bits_of(le_bytes4(g.explorer_rank as nat));
    lemma_le_bits_len(g.held_money as nat, 24);
    lemma_le_bits_len(g.sp_episode_held_money as nat, 24);
    lemma_le_bits_len(g.stored_money as nat, 24);
    let named = splice(bits, 8 * (at + general::TEAM_NAME.start), name);
    lemma_splice(bits, 8 * (at + general::TEAM_NAME.start), name);
    let held = splice(named, 8 * at + general::HELD_MONEY_BITS.start, held_money);
    lemma_splice(named, 8 * at + general::HELD_MONEY_BITS.start, held_money);
    let sp_held = splice(held, 8 * at + general::SP_EPISODE_HELD_MONEY_BITS.start, sp_money);
    lemma_splice(held, 8 * at + general::SP_EPISODE_HELD_MONEY_BITS.start, sp_money);
    let stored = splice(sp_held, 8 * at + general::STORED_MONEY_BITS.start, stored_money);
    lemma_splice(sp_held, 8 * at + general::STORED_MONEY_BITS.start, stored_money);
    let counted = splice(stored, 8 * (at + general::NUMBER_OF_ADVENTURERS.start), adventures);
    lemma_splice(stored, 8 * (at + general::NUMBER_OF_ADVENTURERS.start), adventures);
    let out = splice(counted, 8 * (at + general::EXPLORER_RANK.start), rank);
    lemma_splice(counted, 8 * (at + general::EXPLORER_RANK.start), rank);
    assert(out.subrange(8 * (at + general::TEAM_NAME.start), 8 * (at + general::TEAM_NAME.end))
        =~= name);
    assert(out.subrange(
        8 * at + general::HELD_MONEY_BITS.start,
        8 * at + general::HELD_MONEY_BITS.end,
    ) =~= held_money);
    assert(out.subrange(
        8 * at + general::SP_EPISODE_HELD_MONEY_BITS.start,
        8 * at + general::SP_EPISODE_HELD_MONEY_BITS.end,
    ) =~= sp_money);
    assert(out.subrange(
        8 * at + general::STORED_MONEY_BITS.start,
        8 * at + general::STORED_MONEY_BITS.end,
    ) =~= stored_money);
    assert(out.subrange(
        8 * (at + general::NUMBER_OF_ADVENTURERS.start),
        8 * (at + general::NUMBER_OF_ADVENTURERS.end),
    ) =~= adventures);
    assert(out.subrange(
        8 * (at + general::EXPLORER_RANK.start),
        8 * (at + general::EXPLORER_RANK.end),
    ) =~= rank);
}

/// The bits of the first 128 KiB of a model with its records written.
proof fn lemma_written_bits(s: SkySave)
    requires
        s.wf(),
    ensures
        bits_of(head_of(s.written())) == s.written_bits(),
        s.written_bits().len() == 8 * MIN_SAVE_LEN,
{
    reveal(SkySave::written_bits);
    let at = s.active_save_block.start();
    let head = head_of(s.data@);
    let general = s.general.written(head, s.active_save_block);
    lemma_general_written_bits(s.general, head, s.active_save_block);
    crate::save::lemma_general_written_len(s.general, head, s.active_save_block);
    lemma_stored_bits_len(s.stored());
    lemma_active_bits_len(s.active());
    lemma_with_bits_len(general, 8 * at + stored::STORED_PKM_BITS.start, stored_bits(s.stored()));
    let stored = with_bits(
        general,
        8 * at + stored::STORED_PKM_BITS.start,
        stored_bits(s.stored()),
    );
    lemma_with_bits_len(stored, 8 * at + active::ACTIVE_PKM_BITS.start, active_bits(s.active()));
    let active = with_bits(
        stored,
        8 * at + active::ACTIVE_PKM_BITS.start,
        active_bits(s.active()),
    );
    let tail = s.data@.subrange(MIN_SAVE_LEN as int, s.data@.len() as int);
    assert(head_of(active + tail) =~= active);
}

/// What lies in the place of each record after a model is written.
proof fn lemma_written_fields(s: SkySave)
    requires
        s.wf(),
    ensures
        ({
            let at = s.active_save_block.start();
            let out = s.written_bits();
            let g = s.general;
            &&& out.len() == 8 * MIN_SAVE_LEN
            &&& out.subrange(
                8 * at + stored::STORED_PKM_BITS.start,
                8 * at + stored::STORED_PKM_BITS.end,
            ) == stored_bits(s.stored())
            &&& out.subrange(
                8 * at + active::ACTIVE_PKM_BITS.start,
                8 * at + active::ACTIVE_PKM_BITS.end,
            ) == active_bits(s.active())
            &&& out.subrange(8 * (at + general::TEAM_NAME.start), 8 * (at + general::TEAM_NAME.end))
                == bits_of(save_bytes(g.team_name@))
            &&& out.subrange(
                8 * at + general::HELD_MONEY_BITS.start,
                8 * at + general::HELD_MONEY_BITS.end,
            ) == le_bits(g.held_money as nat, 24)
            &&& out.subrange(
                8 * at + general::SP_EPISODE_HELD_MONEY_BITS.start,
                8 * at + general::SP_EPISODE_HELD_MONEY_BITS.end,
            ) == le_bits(g.sp_episode_held_money as nat, 24)
            &&& out.subrange(
                8 * at + general::STORED_MONEY_BITS.start,
                8 * at + general::STORED_MONEY_BITS.end,
            ) == le_bits(g.stored_money as nat, 24)
            &&& out.subrange(
                8 * (at + general::NUMBER_OF_ADVENTURERS.start),
                8 * (at + general::NUMBER_OF_ADVENTURERS.end),
            ) == bits_of(le_bytes4(unsigned32(g.number_of_adventures as int)))
            &&& out.subrange(
                8 * (at + general::EXPLORER_RANK.start),
                8 * (at + general::EXPLORER_RANK.end),
            ) == bits_of(le_bytes4(g.explorer_rank as nat))
        }),
{
    reveal(SkySave::written_bits);
    let at = s.active_save_block.start();
    let bits = bits_of(head_of(s.data@));
    let written = s.general.written_bits(bits, s.active_save_block);
    lemma_general_written_fields(s.general, bits, s.active_save_block);
    lemma_stored_bits_len(s.stored());
    lemma_active_bits_len(s.active());
    let stored = splice(written, 8 * at + stored::STORED_PKM_BITS.start, stored_bits(s.stored()));
    lemma_splice(written, 8 * at + stored::STORED_PKM_BITS.start, stored_bits(s.stored()));
    let out = splice(stored, 8 * at + active::ACTIVE_PKM_BITS.start, active_bits(s.active()));
    lemma_splice(stored, 8 * at + active::ACTIVE_PKM_BITS.start, active_bits(s.active()));
    assert(out.subrange(
        8 * at + stored::STORED_PKM_BITS.start,
        8 * at + stored::STORED_PKM_BITS.end,
    ) =~= stored_bits(s.stored()));
    let first = 8 * (at + general::NUMBER_OF_ADVENTURERS.start);
    let last = 8 * (at + general::EXPLORER_RANK.end);
    assert(out.subrange(first, last) =~= written.subrange(first, last));
    assert forall|a: int, b: int| first <= a <= b <= last implies #[trigger] out.subrange(a, b)
        == written.subrange(a, b) by {
        assert(out.subrange(a, b) =~= out.subrange(first, last).subrange(a - first, b - first));
        assert(written.subrange(a, b) =~= written.subrange(first, last).subrange(
            a - first,
            b - first,
        ));
    }
}

/// After one block of a container is made a copy of the other and the
/// checksums are set, the primary block, but for its stored checksum, holds
/// the bytes that the active block held.
proof fn lemma_saved_from(written: Seq<u8>, block: ActiveSaveBlock)
    requires
        written.len() >= MIN_SAVE_LEN,
    ensures
        with_checksums(mirrored(written, block)).len() == written.len(),
        head_of(with_checksums(mirrored(written, block))).subrange(4, 0xB65C) == head_of(
            written,
        ).subrange(block.start() + 4, block.start() + 0xB65C),
{
    let at = block.start();
    let mirror = mirrored(written, block);
    let out = with_checksums(mirror);
    lemma_mirrored(written, block);
    lemma_with_checksums(mirror);
    let held = written.subrange(at, at + 0xB65C);
    assert forall|i: int| 4 <= i < 0xB65C implies out[i] == written[at + i] by {
        assert(out[i] == mirror[i]);
        assert(mirror.subrange(0, 0xB65C)[i] == held[i]);
    }
    assert(head_of(out).subrange(4, 0xB65C) =~= head_of(written).subrange(at + 4, at + 0xB65C));
}

/// The primary block of a saved model, but for its stored checksum, holds the
/// bytes that the model was written as in its active block.
proof fn lemma_saved_block_bytes(s: SkySave)
    requires
        s.wf(),
    ensures
        s.saved().len() == s.data@.len(),
        s.written().len() == s.data@.len(),
        head_of(s.saved()).subrange(4, 0xB65C) == head_of(s.written()).subrange(
            s.active_save_block.start() + 4,
            s.active_save_block.start() + 0xB65C,
        ),
{
    lemma_written_len(s);
    lemma_saved_from(s.written(), s.active_save_block);
}

/// Where a run of bytes of one buffer is a run of bytes of another, shifted
/// by `at` bytes, so is every run of bits within it.
proof fn lemma_shifted_bits(out: Seq<u8>, written: Seq<u8>, at: int, start: int, end: int)
    requires
        0 <= at,
        out.len() >= 0xB65C,
        written.len() >= at + 0xB65C,
        out.subrange(4, 0xB65C) == written.subrange(at + 4, at + 0xB65C),
        32 <= start <= end <= 0x5B2E0,
    ensures
        bits_of(out).subrange(start, end) == bits_of(written).subrange(
            8 * at + start,
            8 * at + end,
        ),
{
    lemma_bits_of_subrange(out, 4, 0xB65C);
    lemma_bits_of_subrange(written, at + 4, at + 0xB65C);
    crate::bits::lemma_subrange_of_same(
        bits_of(out),
        32,
        bits_of(written),
        8 * at + 32,
        0x5B2E0 - 32,
        start - 32,
        end - 32,
    );
}

/// A run of bits of the primary block of a saved model, behind its stored
/// checksum, is the run that the model was written as in its active block.
proof fn lemma_saved_block(s: SkySave, start: int, end: int)
    requires
        s.wf(),
        32 <= start <= end <= 8 * save::PRIMARY_SAVE.end,
    ensures
        s.saved_bits().len() == 8 * MIN_SAVE_LEN,
        s.saved_bits().subrange(start, end) == s.written_bits().subrange(
            8 * s.active_save_block.start() + start,
            8 * s.active_save_block.start() + end,
        ),
{
    reveal(SkySave::saved_bits);
    lemma_saved_block_bytes(s);
    lemma_written_bits(s);
    lemma_shifted_bits(
        head_of(s.saved()),
        head_of(s.written()),
        s.active_save_block.start(),
        start,
        end,
    );
}

/// The bits `out` of the first 128 KiB of a container hold, in the place of
/// each field of the general record of its primary block, what `g` is
/// written as.
spec fn holds_general(out: Seq<bool>, g: General) -> bool {
    &&& out.len() == 8 * MIN_SAVE_LEN
    &&& out.subrange(8 * general::TEAM_NAME.start, 8 * general::TEAM_NAME.end) == bits_of(
        save_bytes(g.team_name@),
    )
    &&& out.subrange(general::HELD_MONEY_BITS.start as int, general::HELD_MONEY_BITS.end as int)
        == le_bits(g.held_money as nat, 24)
    &&& out.subrange(
        general::SP_EPISODE_HELD_MONEY_BITS.start as int,
        general::SP_EPISODE_HELD_MONEY_BITS.end as int,
    ) == le_bits(g.sp_episode_held_money as nat, 24)
    &&& out.subrange(
        general::STORED_MONEY_BITS.start as int,
        general::STORED_MONEY_BITS.end as int,
    ) == le_bits(g.stored_money as nat, 24)
    &&& out.subrange(
        8 * general::NUMBER_OF_ADVENTURERS.start,
        8 * general::NUMBER_OF_ADVENTURERS.end,
    ) == bits_of(le_bytes4(unsigned32(g.number_of_adventures as int)))
    &&& out.subrange(8 * general::EXPLORER_RANK.start, 8 * general::EXPLORER_RANK.end) == bits_of(
        le_bytes4(g.explorer_rank as nat),
    )
}

/// What lies in the place of each field of the general record in a saved
/// model.
proof fn lemma_saved_general_bits(s: SkySave)
    requires
        s.wf(),
    ensures
        holds_general(s.saved_bits(), s.general),
{
    lemma_written_fields(s);
    lemma_saved_block(s, 8 * general::TEAM_NAME.start, 8 * general::TEAM_NAME.end);
    lemma_saved_block(
        s,
        general::HELD_MONEY_BITS.start as int,
        general::HELD_MONEY_BITS.end as int,
    );
    lemma_saved_block(
        s,
        general::SP_EPISODE_HELD_MONEY_BITS.start as int,
        general::SP_EPISODE_HELD_MONEY_BITS.end as int,
    );
    lemma_saved_block(
        s,
        general::STORED_MONEY_BITS.start as int,
        general::STORED_MONEY_BITS.end as int,
    );
    lemma_saved_block(
        s,
        8 * general::NUMBER_OF_ADVENTURERS.start,
        8 * general::NUMBER_OF_ADVENTURERS.end,
    );
    lemma_saved_block(s, 8 * general::EXPLORER_RANK.start, 8 * general::EXPLORER_RANK.end);
}

/// The general record read from bits that hold the fields of a record that
/// fits is that record.
proof fn lemma_general_read_back(g: General, t: General, head: Seq<u8>)
    requires
        g.fits(),
        t.decodes(head, ActiveSaveBlock::Primary),
        holds_general(bits_of(head), g),
    ensures
        t.reads_back(&g),
{
    let name = save_bytes(g.team_name@);
    assert(head.subrange(general::TEAM_NAME.start as int, general::TEAM_NAME.end as int) == name)
        by {
        lemma_bytes_of_subrange(
            head,
            general::TEAM_NAME.start as int,
            general::TEAM_NAME.end as int,
        );
        crate::bits::lemma_bytes_of_bits_of(name);
    }
    lemma_read_money(g.held_money);
    lemma_read_money(g.sp_episode_held_money);
    lemma_read_money(g.stored_money);
    lemma_read_word(
        head,
        general::NUMBER_OF_ADVENTURERS.start as int,
        unsigned32(g.number_of_adventures as int),
    );
    lemma_read_word(head, general::EXPLORER_RANK.start as int, g.explorer_rank as nat);
}

/// A sum of money that fits 24 bits is read back from its bits.
proof fn lemma_read_money(money: u32)
    requires
        money < 0x100_0000,
    ensures
        crate::bits::le_value(le_bits(money as nat, 24)) == money,
{
    vstd::arithmetic::power2::lemma2_to64();
    lemma_le_value_of_bits(money as nat, 24);
    vstd::arithmetic::div_mod::lemma_small_mod(money as nat, 0x100_0000);
}

/// A word is read back from the bytes whose bits are the bits of its bytes.
proof fn lemma_read_word(bytes: Seq<u8>, at: int, word: nat)
    requires
        0 <= at,
        at + 4 <= bytes.len(),
        word < 0x1_0000_0000,
        bits_of(bytes).subrange(8 * at, 8 * (at + 4)) == bits_of(le_bytes4(word)),
    ensures
        crate::save::word_at(bytes, at) == word,
{
    let found = bytes.subrange(at, at + 4);
    lemma_bytes_of_subrange(bytes, at, at + 4);
    crate::bits::lemma_bytes_of_bits_of(le_bytes4(word));
    lemma_word_of_le_bytes4(word);
    assert(found == le_bytes4(word));
    assert(found[0] == bytes[at]);
    assert(found[1] == bytes[at + 1]);
    assert(found[2] == bytes[at + 2]);
    assert(found[3] == bytes[at + 3]);
}

/// The bits of a saved model in the place of the stored creature at `index`
/// are the bits of that creature.
proof fn lemma_saved_stored_bits(s: SkySave, index: int)
    requires
        s.wf(),
        0 <= index < stored::STORED_PKM_COUNT,
    ensures
        s.saved_bits().len() == 8 * MIN_SAVE_LEN,
        s.saved_bits().subrange(
            stored::STORED_PKM_BITS.start + 362 * index,
            stored::STORED_PKM_BITS.start + 362 * index + 362,
        ) == s.stored()[index].encode(),
{
    let at = s.active_save_block.start();
    let written = s.written_bits();
    let base = stored::STORED_PKM_BITS.start + 362 * index;
    lemma_written_fields(s);
    lemma_saved_block(s, base, base + 362);
    lemma_stored_bits_len(s.stored());
    lemma_stored_bits_at(s.stored(), index);
    crate::bits::lemma_subrange_within(
        written,
        8 * at + stored::STORED_PKM_BITS.start,
        8 * at + stored::STORED_PKM_BITS.end,
        362 * index,
        362 * index + 362,
    );
}

/// The bits of a saved model in the place of the active creature at `index`
/// are the bits of that creature.
proof fn lemma_saved_active_bits(s: SkySave, index: int)
    requires
        s.wf(),
        0 <= index < active::ACTIVE_PKM_COUNT,
    ensures
        s.saved_bits().len() == 8 * MIN_SAVE_LEN,
        s.saved_bits().subrange(
            active::ACTIVE_PKM_BITS.start + 546 * index,
            active::ACTIVE_PKM_BITS.start + 546 * index + 546,
        ) == s.active()[index].encode(),
{
    let at = s.active_save_block.start();
    let written = s.written_bits();
    let base = active::ACTIVE_PKM_BITS.start + 546 * index;
    lemma_written_fields(s);
    lemma_saved_block(s, base, base + 546);
    lemma_active_bits_len(s.active());
    lemma_active_bits_at(s.active(), index);
    crate::bits::lemma_subrange_within(
        written,
        8 * at + active::ACTIVE_PKM_BITS.start,
        8 * at + active::ACTIVE_PKM_BITS.end,
        546 * index,
        546 * index + 546,
    );
}

/// The model read from a container that holds, in the place of each record
/// of its primary block, the bits of a record that fits, is made of those
/// records.
proof fn lemma_read_back(
    general: General,
    stored: Seq<crate::stored::StoredPokemon>,
    active: Seq<crate::active::ActivePokemon>,
    t: SkySave,
    data: Seq<u8>,
    quicksave_valid: bool,
)
    requires
        t.holds(data, ActiveSaveBlock::Primary, quicksave_valid),
        general.fits(),
        stored.len() == stored::STORED_PKM_COUNT,
        active.len() == active::ACTIVE_PKM_COUNT,
        forall|i: int| 0 <= i < stored.len() ==> (#[trigger] stored[i]).fits(),
        forall|i: int| 0 <= i < active.len() ==> (#[trigger] active[i]).fits(),
        holds_general(bits_of(head_of(data)), general),
        forall|i: int|
            0 <= i < stored.len() ==> bits_of(head_of(data)).subrange(
                stored::STORED_PKM_BITS.start + 362 * i,
                stored::STORED_PKM_BITS.start + 362 * i + 362,
            ) == (#[trigger] stored[i]).encode(),
        forall|i: int|
            0 <= i < active.len() ==> bits_of(head_of(data)).subrange(
                active::ACTIVE_PKM_BITS.start + 546 * i,
                active::ACTIVE_PKM_BITS.start + 546 * i + 546,
            ) == (#[trigger] active[i]).encode(),
    ensures
        t.general.reads_back(&general),
        t.stored().len() == stored.len(),
        t.active().len() == active.len(),
        forall|i: int|
            0 <= i < t.stored().len() ==> (#[trigger] t.stored()[i]).reads_back(&stored[i]),
        forall|i: int|
            0 <= i < t.active().len() ==> (#[trigger] t.active()[i]).reads_back(&active[i]),
{
    let head = head_of(data);
    let bits = bits_of(head);
    lemma_general_read_back(general, t.general, head);
    assert forall|i: int| 0 <= i < t.stored().len() implies (#[trigger] t.stored()[i]).reads_back(
        &stored[i],
    ) by {
        assert(stored[i].fits());
        assert(bits.subrange(
            stored::STORED_PKM_BITS.start + 362 * i,
            stored::STORED_PKM_BITS.start + 362 * i + 362,
        ) == stored[i].encode());
        lemma_stored_read_back(
            stored[i],
            t.stored()[i],
            bits,
            stored::STORED_PKM_BITS.start + 362 * i,
        );
    }
    assert forall|i: int| 0 <= i < t.active().len() implies (#[trigger] t.active()[i]).reads_back(
        &active[i],
    ) by {
        assert(active[i].fits());
        assert(bits.subrange(
            active::ACTIVE_PKM_BITS.start + 546 * i,
            active::ACTIVE_PKM_BITS.start + 546 * i + 546,
        ) == active[i].encode());
        lemma_active_read_back(
            active[i],
            t.active()[i],
            bits,
            active::ACTIVE_PKM_BITS.start + 546 * i,
        );
    }
}

/// What a saved model holds in the place of each record of its primary
/// block: the bits of that record.
proof fn lemma_saved_bits(s: SkySave)
    requires
        s.wf(),
    ensures
        holds_general(bits_of(head_of(s.saved())), s.general),
        forall|i: int|
            0 <= i < s.stored().len() ==> bits_of(head_of(s.saved())).subrange(
                stored::STORED_PKM_BITS.start + 362 * i,
                stored::STORED_PKM_BITS.start + 362 * i + 362,
            ) == (#[trigger] s.stored()[i]).encode(),
        forall|i: int|
            0 <= i < s.active().len() ==> bits_of(head_of(s.saved())).subrange(
                active::ACTIVE_PKM_BITS.start + 546 * i,
                active::ACTIVE_PKM_BITS.start + 546 * i + 546,
            ) == (#[trigger] s.active()[i]).encode(),
{
    reveal(SkySave::saved_bits);
    lemma_saved_general_bits(s);
    assert forall|i: int| 0 <= i < s.stored().len() implies s.saved_bits().subrange(
        stored::STORED_PKM_BITS.start + 362 * i,
        stored::STORED_PKM_BITS.start + 362 * i + 362,
    ) == (#[trigger] s.stored()[i]).encode() by {
        lemma_saved_stored_bits(s, i);
    }
    assert forall|i: int| 0 <= i < s.active().len() implies s.saved_bits().subrange(
        active::ACTIVE_PKM_BITS.start + 546 * i,
        active::ACTIVE_PKM_BITS.start + 546 * i + 546,
    ) == (#[trigger] s.active()[i]).encode() by {
        lemma_saved_active_bits(s, i);
    }
}

/// Every field of a loaded model fits the bits that the save has for it.
pub proof fn lemma_loaded_fits(
    s: SkySave,
    data: Seq<u8>,
    block: ActiveSaveBlock,
    quicksave_valid: bool,
)
    requires
        s.holds(data, block, quicksave_valid),
    ensures
        s.fits(),
{
    let at = block.start();
    let bits = bits_of(head_of(data));
    assert(s.general.fits()) by {
        vstd::arithmetic::power2::lemma2_to64();
        crate::bits::lemma_field(
            bits,
            8 * at + general::HELD_MONEY_BITS.start,
            8 * at + general::HELD_MONEY_BITS.end,
        );
        crate::bits::lemma_field(
            bits,
            8 * at + general::SP_EPISODE_HELD_MONEY_BITS.start,
            8 * at + general::SP_EPISODE_HELD_MONEY_BITS.end,
        );
        crate::bits::lemma_field(
            bits,
            8 * at + general::STORED_MONEY_BITS.start,
            8 * at + general::STORED_MONEY_BITS.end,
        );
    }
    assert forall|i: int| 0 <= i < s.stored().len() implies (#[trigger] s.stored()[i]).fits() by {
        crate::stored::lemma_stored_decoded_fits(
            s.stored()[i],
            bits,
            8 * at + stored::STORED_PKM_BITS.start + 362 * i,
        );
    }
    assert forall|i: int| 0 <= i < s.active().len() implies (#[trigger] s.active()[i]).fits() by {
        crate::active::lemma_active_decoded_fits(
            s.active()[i],
            bits,
            8 * at + active::ACTIVE_PKM_BITS.start + 546 * i,
        );
    }
}

/// A model that was saved and is loaded again, from the primary block, is the
/// model that was saved, where every field of that one fits the bits that
/// the save has for it.
pub proof fn lemma_reload(s: SkySave, t: SkySave, quicksave_valid: bool)
    requires
        s.wf(),
        s.fits(),
        t.holds(s.saved(), ActiveSaveBlock::Primary, quicksave_valid),
    ensures
        t.reads_back(&s),
{
    lemma_saved_bits(s);
    lemma_read_back(s.general, s.stored(), s.active(), t, s.saved(), quicksave_valid);
}

} // verus!
