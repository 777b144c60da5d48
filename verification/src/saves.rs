//! The slot-addressed save-state store: deterministic per-slot filenames, a
//! model of the `save_states` table with at most one row per
//! (user, game, slot), a blob store model, and the upload / list /
//! download / delete lifecycle with ownership enforcement.

use vstd::prelude::*;
use vstd::multiset::Multiset;
use vstd::seq_lib::group_to_multiset_ensures;
use vstd::string::{StrSliceExecFns, StringExecFns};
use crate::errors::ApiError;
use crate::auth_service::not_found_msg;
use crate::ids::{push_uuid, uuid_str_of};
use crate::text::{dec_chars_int, push_i64_dec};

verus! {

broadcast use vstd::seq_lib::group_to_multiset_ensures, vstd::multiset::lemma_multiset_empty_len;

/// One save-state row.
#[derive(Clone, Debug)]
pub struct SaveState {
    pub id: u128,
    pub user_id: u128,
    pub game_id: u128,
    pub slot: i32,
    pub save_data_filename: String,
    pub screenshot_filename: Option<String>,
    pub description: Option<String>,
    pub created_at: i64,
}

impl SaveState {
    /// An owned field-for-field copy of the row.
    pub fn duplicate(&self) -> (s: SaveState)
        ensures
            s == *self,
    {
        SaveState {
            id: self.id,
            user_id: self.user_id,
            game_id: self.game_id,
            slot: self.slot,
            save_data_filename: self.save_data_filename.clone(),
            screenshot_filename: match &self.screenshot_filename {
                Some(f) => Some(f.clone()),
                None => None,
            },
            description: match &self.description {
                Some(d) => Some(d.clone()),
                None => None,
            },
            created_at: self.created_at,
        }
    }
}

/// The deterministic save-data filename for a slot: re-upload to the same
/// slot reuses the same name, so overwrite on disk is implicit. This
/// coupling with the row contents is load-bearing.
pub open spec fn spec_save_filename(user_id: u128, game_id: u128, slot: i32) -> Seq<char> {
    uuid_str_of(user_id) + "_"@ + uuid_str_of(game_id) + "_slot"@ + dec_chars_int(slot as int)
        + ".sav"@
}

/// The deterministic screenshot filename for a slot.
pub open spec fn spec_screenshot_filename(user_id: u128, game_id: u128, slot: i32) -> Seq<char> {
    uuid_str_of(user_id) + "_"@ + uuid_str_of(game_id) + "_slot"@ + dec_chars_int(slot as int)
        + ".png"@
}

/// The two blob names of one slot differ (in their extension).
proof fn lemma_filenames_distinct(user_id: u128, game_id: u128, slot: i32)
    ensures
        spec_save_filename(user_id, game_id, slot) != spec_screenshot_filename(
            user_id,
            game_id,
            slot,
        ),
{
    reveal_strlit(".sav");
    reveal_strlit(".png");
    let stem = uuid_str_of(user_id) + "_"@ + uuid_str_of(game_id) + "_slot"@ + dec_chars_int(
        slot as int,
    );
    let a = spec_save_filename(user_id, game_id, slot);
    let b = spec_screenshot_filename(user_id, game_id, slot);
    assert(a[stem.len() as int + 1] == ".sav"@[1]);
    assert(b[stem.len() as int + 1] == ".png"@[1]);
    assert(a[stem.len() as int + 1] != b[stem.len() as int + 1]);
}

fn filename_stem(user_id: u128, game_id: u128, slot: i32) -> (r: String)
    ensures
        r@ == uuid_str_of(user_id) + "_"@ + uuid_str_of(game_id) + "_slot"@ + dec_chars_int(
            slot as int,
        ),
{
    let mut s = String::new();
    push_uuid(&mut s, user_id);
    s.append("_");
    push_uuid(&mut s, game_id);
    s.append("_slot");
    push_i64_dec(&mut s, slot as i64);
    assert(s@ =~= uuid_str_of(user_id) + "_"@ + uuid_str_of(game_id) + "_slot"@ + dec_chars_int(
        slot as int,
    ));
    s
}

/// Builds `{user}_{game}_slot{slot}.sav`.
pub fn save_data_filename(user_id: u128, game_id: u128, slot: i32) -> (r: String)
    ensures
        r@ == spec_save_filename(user_id, game_id, slot),
{
    let mut s = filename_stem(user_id, game_id, slot);
    s.append(".sav");
    assert(s@ =~= spec_save_filename(user_id, game_id, slot));
    s
}

/// Builds `{user}_{game}_slot{slot}.png`.
pub fn screenshot_filename(user_id: u128, game_id: u128, slot: i32) -> (r: String)
    ensures
        r@ == spec_screenshot_filename(user_id, game_id, slot),
{
    let mut s = filename_stem(user_id, game_id, slot);
    s.append(".png");
    assert(s@ =~= spec_screenshot_filename(user_id, game_id, slot));
    s
}

/// The most recent write under a name, searching newest entries first.
pub open spec fn lookup_blob(entries: Seq<(String, Vec<u8>)>, name: Seq<char>) -> Option<Seq<u8>>
    decreases entries.len(),
{
    if entries.len() == 0 {
        None
    } else if entries.last().0@ == name {
        Some(entries.last().1@)
    } else {
        lookup_blob(entries.drop_last(), name)
    }
}

/// The blob-store collaborator modeled as a write log: a later write under
/// the same name shadows an earlier one, exactly as overwriting a file does.
pub struct BlobStore {
    entries: Vec<(String, Vec<u8>)>,
}

impl BlobStore {
    /// The bytes currently stored under a name, if any.
    pub closed spec fn blob(&self, name: Seq<char>) -> Option<Seq<u8>> {
        lookup_blob(self.entries@, name)
    }

    pub fn new() -> (b: BlobStore)
        ensures
            forall|n: Seq<char>| #[trigger] b.blob(n) is None,
    {
        BlobStore { entries: Vec::new() }
    }

    /// Writes bytes under a name, replacing what was there.
    pub fn write(&mut self, name: String, data: Vec<u8>)
        ensures
            final(self).blob(name@) == Some(data@),
            forall|n: Seq<char>| n != name@ ==> #[trigger] final(self).blob(n) == old(self).blob(n),
    {
        let ghost pre = self.entries@;
        self.entries.push((name, data));
        proof {
            assert(self.entries@.drop_last() =~= pre);
        }
    }

    /// Reads the bytes under a name.
    pub fn read<'a>(&'a self, name: &str) -> (r: Option<&'a Vec<u8>>)
        ensures
            match r {
                Some(d) => self.blob(name@) == Some(d@),
                None => self.blob(name@) is None,
            },
    {
        let n = self.entries.len();
        assert(self.entries@.take(n as int) =~= self.entries@);
        let mut i: usize = n;
        while i > 0
            invariant
                n == self.entries@.len(),
                0 <= i <= n,
                lookup_blob(self.entries@, name@) == lookup_blob(
                    self.entries@.take(i as int),
                    name@,
                ),
            decreases i,
        {
            i = i - 1;
            proof {
                assert(self.entries@.take(i + 1).drop_last() =~= self.entries@.take(i as int));
                assert(self.entries@.take(i + 1).last() == self.entries@[i as int]);
            }
            if crate::text::str_eq(self.entries[i].0.as_str(), name) {
                return Some(&self.entries[i].1);
            }
        }
        assert(self.entries@.take(0) =~= Seq::<(String, Vec<u8>)>::empty());
        None
    }

    /// Removes every entry under a name.
    pub fn delete(&mut self, name: &str)
        ensures
            final(self).blob(name@) is None,
            forall|n: Seq<char>| n != name@ ==> #[trigger] final(self).blob(n) == old(self).blob(n),
    {
        let mut i: usize = 0;
        while i < self.entries.len()
            invariant
                0 <= i <= self.entries@.len(),
                forall|j: int| 0 <= j < i ==> (#[trigger] self.entries@[j]).0@ != name@,
                forall|n: Seq<char>|
                    n != name@ ==> #[trigger] lookup_blob(self.entries@, n) == lookup_blob(
                        old(self).entries@,
                        n,
                    ),
            decreases self.entries@.len() - i,
        {
            if crate::text::str_eq(self.entries[i].0.as_str(), name) {
                let ghost pre = self.entries@;
                let _ = self.entries.remove(i);
                proof {
                    assert(self.entries@ == pre.remove(i as int));
                    assert forall|n: Seq<char>| n != name@ implies #[trigger] lookup_blob(
                        self.entries@,
                        n,
                    ) == lookup_blob(old(self).entries@, n) by {
                        lemma_lookup_remove(pre, i as int, name@, n);
                        assert(lookup_blob(pre, n) == lookup_blob(old(self).entries@, n));
                    }
                }
            } else {
                i = i + 1;
            }
        }
        proof {
            lemma_lookup_no_match(self.entries@, name@);
        }
    }
}

proof fn lemma_lookup_remove(s: Seq<(String, Vec<u8>)>, i: int, name: Seq<char>, other: Seq<char>)
    requires
        0 <= i < s.len(),
        s[i].0@ == name,
        other != name,
    ensures
        lookup_blob(s.remove(i), other) == lookup_blob(s, other),
    decreases s.len(),
{
    if i == s.len() - 1 {
        assert(s.remove(i) =~= s.drop_last());
    } else {
        let t = s.remove(i);
        assert(t.last() == s.last());
        assert(t.drop_last() =~= s.drop_last().remove(i));
        if s.last().0@ != other {
            lemma_lookup_remove(s.drop_last(), i, name, other);
        }
    }
}

proof fn lemma_lookup_no_match(s: Seq<(String, Vec<u8>)>, name: Seq<char>)
    requires
        forall|j: int| 0 <= j < s.len() ==> (#[trigger] s[j]).0@ != name,
    ensures
        lookup_blob(s, name) is None,
    decreases s.len(),
{
    if s.len() > 0 {
        lemma_lookup_no_match(s.drop_last(), name);
    }
}

/// A row's blob names are exactly the deterministic names of its own
/// (user, game, slot) — the load-bearing coupling between rows and files.
pub open spec fn row_filenames_canonical(r: SaveState) -> bool {
    &&& r.save_data_filename@ == spec_save_filename(r.user_id, r.game_id, r.slot)
    &&& match r.screenshot_filename {
        Some(f) => f@ == spec_screenshot_filename(r.user_id, r.game_id, r.slot),
        None => true,
    }
}

/// Rows pairwise distinct in id and in (user, game, slot) triple.
pub open spec fn rows_distinct(rows: Seq<SaveState>) -> bool {
    forall|i: int, j: int|
        #![trigger rows[i], rows[j]]
        0 <= i < j < rows.len() ==> rows[i].id != rows[j].id && !(rows[i].user_id
            == rows[j].user_id && rows[i].game_id == rows[j].game_id && rows[i].slot
            == rows[j].slot)
}

/// Whether a row occupies this (user, game, slot) triple.
pub open spec fn is_triple(r: SaveState, user_id: u128, game_id: u128, slot: i32) -> bool {
    r.user_id == user_id && r.game_id == game_id && r.slot == slot
}

/// The rows surviving removal of one triple.
pub open spec fn drop_triple(rows: Seq<SaveState>, user_id: u128, game_id: u128, slot: i32) -> Seq<
    SaveState,
>
    decreases rows.len(),
{
    if rows.len() == 0 {
        rows
    } else if is_triple(rows.last(), user_id, game_id, slot) {
        drop_triple(rows.drop_last(), user_id, game_id, slot)
    } else {
        drop_triple(rows.drop_last(), user_id, game_id, slot).push(rows.last())
    }
}

/// The rows surviving removal of one id.
pub open spec fn drop_id(rows: Seq<SaveState>, id: u128) -> Seq<SaveState>
    decreases rows.len(),
{
    if rows.len() == 0 {
        rows
    } else if rows.last().id == id {
        drop_id(rows.drop_last(), id)
    } else {
        drop_id(rows.drop_last(), id).push(rows.last())
    }
}

/// How many rows occupy this triple.
pub open spec fn count_triple(rows: Seq<SaveState>, user_id: u128, game_id: u128, slot: i32) -> nat
    decreases rows.len(),
{
    if rows.len() == 0 {
        0
    } else {
        count_triple(rows.drop_last(), user_id, game_id, slot) + (if is_triple(
            rows.last(),
            user_id,
            game_id,
            slot,
        ) {
            1nat
        } else {
            0nat
        })
    }
}

proof fn lemma_drop_triple_count(rows: Seq<SaveState>, user_id: u128, game_id: u128, slot: i32)
    ensures
        count_triple(drop_triple(rows, user_id, game_id, slot), user_id, game_id, slot) == 0,
    decreases rows.len(),
{
    if rows.len() > 0 {
        lemma_drop_triple_count(rows.drop_last(), user_id, game_id, slot);
        if !is_triple(rows.last(), user_id, game_id, slot) {
            assert(drop_triple(rows, user_id, game_id, slot).drop_last() =~= drop_triple(
                rows.drop_last(),
                user_id,
                game_id,
                slot,
            ));
        }
    }
}

/// Law: replacing a slot leaves exactly one row for its triple — the
/// slot-uniqueness invariant of the store.
pub proof fn lemma_replace_slot_unique(
    rows: Seq<SaveState>,
    row: SaveState,
    user_id: u128,
    game_id: u128,
    slot: i32,
)
    requires
        is_triple(row, user_id, game_id, slot),
    ensures
        count_triple(
            drop_triple(rows, user_id, game_id, slot).push(row),
            user_id,
            game_id,
            slot,
        ) == 1,
{
    lemma_drop_triple_count(rows, user_id, game_id, slot);
    assert(drop_triple(rows, user_id, game_id, slot).push(row).drop_last() =~= drop_triple(
        rows,
        user_id,
        game_id,
        slot,
    ));
}

/// The `save_states` table model: unique ids, at most one row per triple.
pub struct SaveTable {
    rows_vec: Vec<SaveState>,
    next_id: u128,
}

impl SaveTable {
    pub closed spec fn rows(&self) -> Seq<SaveState> {
        self.rows_vec@
    }

    pub closed spec fn spec_next_id(&self) -> u128 {
        self.next_id
    }

    /// Table invariant: ids unique and below the counter; a triple occupies
    /// at most one row; every row's filenames are its slot's deterministic
    /// names.
    pub open spec fn wf(&self) -> bool {
        &&& rows_distinct(self.rows())
        &&& forall|i: int|
            0 <= i < self.rows().len() ==> (#[trigger] self.rows()[i]).id < self.spec_next_id()
        &&& forall|i: int|
            0 <= i < self.rows().len() ==> row_filenames_canonical(#[trigger] self.rows()[i])
    }

    pub open spec fn has_id(&self, id: u128) -> bool {
        exists|i: int| 0 <= i < self.rows().len() && (#[trigger] self.rows()[i]).id == id
    }

    pub fn new() -> (t: SaveTable)
        ensures
            t.wf(),
            t.rows().len() == 0,
    {
        SaveTable { rows_vec: Vec::new(), next_id: 1 }
    }

    pub fn len(&self) -> (n: usize)
        ensures
            n == self.rows().len(),
    {
        self.rows_vec.len()
    }

    /// The next identifier the store would assign.
    pub fn fresh_id(&self) -> (id: u128)
        ensures
            id == self.spec_next_id(),
    {
        self.next_id
    }

    pub fn find_by_id(&self, id: u128) -> (r: Option<&SaveState>)
        ensures
            match r {
                Some(s) => s.id == id && exists|i: int|
                    0 <= i < self.rows().len() && #[trigger] self.rows()[i] == *s,
                None => !self.has_id(id),
            },
    {
        let n = self.rows_vec.len();
        let mut i: usize = 0;
        while i < n
            invariant
                n == self.rows().len(),
                0 <= i <= n,
                forall|j: int| 0 <= j < i ==> (#[trigger] self.rows()[j]).id != id,
            decreases n - i,
        {
            if self.rows_vec[i].id == id {
                return Some(&self.rows_vec[i]);
            }
            i = i + 1;
        }
        None
    }
}

/// Every survivor of a triple removal keeps its distinctness, misses the
/// triple, and comes from the original rows.
proof fn lemma_drop_triple_props(rows: Seq<SaveState>, user_id: u128, game_id: u128, slot: i32)
    requires
        rows_distinct(rows),
    ensures
        rows_distinct(drop_triple(rows, user_id, game_id, slot)),
        forall|k: int|
            0 <= k < drop_triple(rows, user_id, game_id, slot).len() ==> !is_triple(
                #[trigger] drop_triple(rows, user_id, game_id, slot)[k],
                user_id,
                game_id,
                slot,
            ),
        forall|k: int|
            0 <= k < drop_triple(rows, user_id, game_id, slot).len() ==> exists|i: int|
                0 <= i < rows.len() && rows[i] == #[trigger] drop_triple(
                    rows,
                    user_id,
                    game_id,
                    slot,
                )[k],
    decreases rows.len(),
{
    if rows.len() > 0 {
        let prev = rows.drop_last();
        assert(rows_distinct(prev)) by {
            assert forall|i: int, j: int|
                #![trigger prev[i], prev[j]]
                0 <= i < j < prev.len() implies prev[i].id != prev[j].id && !(prev[i].user_id
                == prev[j].user_id && prev[i].game_id == prev[j].game_id && prev[i].slot
                == prev[j].slot) by {
                assert(prev[i] == rows[i] && prev[j] == rows[j]);
            }
        }
        lemma_drop_triple_props(prev, user_id, game_id, slot);
        let dtp = drop_triple(prev, user_id, game_id, slot);
        if !is_triple(rows.last(), user_id, game_id, slot) {
            let dt = drop_triple(rows, user_id, game_id, slot);
            assert(dt == dtp.push(rows.last()));
            assert forall|k: int| 0 <= k < dt.len() implies exists|i: int|
                0 <= i < rows.len() && rows[i] == #[trigger] dt[k] by {
                if k < dt.len() - 1 {
                    assert(dt[k] == dtp[k]);
                    let i = choose|i: int| 0 <= i < prev.len() && prev[i] == dtp[k];
                    assert(rows[i] == dt[k]);
                } else {
                    assert(rows[rows.len() - 1] == dt[k]);
                }
            }
            assert forall|a: int, b: int|
                #![trigger dt[a], dt[b]]
                0 <= a < b < dt.len() implies dt[a].id != dt[b].id && !(dt[a].user_id
                == dt[b].user_id && dt[a].game_id == dt[b].game_id && dt[a].slot
                == dt[b].slot) by {
                if b < dt.len() - 1 {
                    assert(dt[a] == dtp[a] && dt[b] == dtp[b]);
                } else {
                    assert(dt[a] == dtp[a] && dt[b] == rows.last());
                    let i = choose|i: int| 0 <= i < prev.len() && prev[i] == dtp[a];
                    assert(rows[i] == dt[a] && rows[rows.len() - 1] == dt[b]);
                }
            }
        }
    }
}

/// Every survivor of an id removal keeps its distinctness, misses the id,
/// and comes from the original rows.
proof fn lemma_drop_id_props(rows: Seq<SaveState>, id: u128)
    requires
        rows_distinct(rows),
    ensures
        rows_distinct(drop_id(rows, id)),
        forall|k: int|
            0 <= k < drop_id(rows, id).len() ==> (#[trigger] drop_id(rows, id)[k]).id != id,
        forall|k: int|
            0 <= k < drop_id(rows, id).len() ==> exists|i: int|
                0 <= i < rows.len() && rows[i] == #[trigger] drop_id(rows, id)[k],
    decreases rows.len(),
{
    if rows.len() > 0 {
        let prev = rows.drop_last();
        assert(rows_distinct(prev)) by {
            assert forall|i: int, j: int|
                #![trigger prev[i], prev[j]]
                0 <= i < j < prev.len() implies prev[i].id != prev[j].id && !(prev[i].user_id
                == prev[j].user_id && prev[i].game_id == prev[j].game_id && prev[i].slot
                == prev[j].slot) by {
                assert(prev[i] == rows[i] && prev[j] == rows[j]);
            }
        }
        lemma_drop_id_props(prev, id);
        let dtp = drop_id(prev, id);
        if rows.last().id != id {
            let dt = drop_id(rows, id);
            assert(dt == dtp.push(rows.last()));
            assert forall|k: int| 0 <= k < dt.len() implies exists|i: int|
                0 <= i < rows.len() && rows[i] == #[trigger] dt[k] by {
                if k < dt.len() - 1 {
                    assert(dt[k] == dtp[k]);
                    let i = choose|i: int| 0 <= i < prev.len() && prev[i] == dtp[k];
                    assert(rows[i] == dt[k]);
                } else {
                    assert(rows[rows.len() - 1] == dt[k]);
                }
            }
            assert forall|a: int, b: int|
                #![trigger dt[a], dt[b]]
                0 <= a < b < dt.len() implies dt[a].id != dt[b].id && !(dt[a].user_id
                == dt[b].user_id && dt[a].game_id == dt[b].game_id && dt[a].slot
                == dt[b].slot) by {
                if b < dt.len() - 1 {
                    assert(dt[a] == dtp[a] && dt[b] == dtp[b]);
                } else {
                    assert(dt[a] == dtp[a] && dt[b] == rows.last());
                    let i = choose|i: int| 0 <= i < prev.len() && prev[i] == dtp[a];
                    assert(rows[i] == dt[a] && rows[rows.len() - 1] == dt[b]);
                }
            }
        }
    }
}

/// Message when the authenticated user does not own the save for a read.
pub open spec fn download_forbidden_msg() -> Seq<char> {
    "Not authorized to access this save state"@
}

/// Message when the authenticated user does not own the save for a delete.
pub open spec fn delete_forbidden_msg() -> Seq<char> {
    "Not authorized to delete this save state"@
}

/// Message when a row's backing file is gone from the blob store.
pub open spec fn save_file_missing_msg() -> Seq<char> {
    "Save file not found"@
}

/// Whether a row belongs to this (user, game) pair.
pub open spec fn is_pair(r: SaveState, user_id: u128, game_id: u128) -> bool {
    r.user_id == user_id && r.game_id == game_id
}

/// The rows of one (user, game) pair, in table order.
pub open spec fn keep_pair(rows: Seq<SaveState>, user_id: u128, game_id: u128) -> Seq<SaveState>
    decreases rows.len(),
{
    if rows.len() == 0 {
        rows
    } else if is_pair(rows.last(), user_id, game_id) {
        keep_pair(rows.drop_last(), user_id, game_id).push(rows.last())
    } else {
        keep_pair(rows.drop_last(), user_id, game_id)
    }
}

/// Slots never decrease along the sequence.
pub open spec fn sorted_by_slot(s: Seq<SaveState>) -> bool {
    forall|i: int, j: int|
        #![trigger s[i], s[j]]
        0 <= i < j < s.len() ==> s[i].slot <= s[j].slot
}

/// The list form the saves endpoint answers with.
pub struct SaveStateListResponse {
    pub saves: Vec<SaveState>,
}

/// The fields of one upload, assembled from the decoded multipart parts.
pub struct UploadRequest {
    pub game_id: u128,
    pub slot: i32,
    pub save_data: Vec<u8>,
    pub screenshot: Option<Vec<u8>>,
    pub description: Option<String>,
}

/// Assembles an upload from raw multipart fields: `game_id`, `slot` and
/// `save_data` are required, the identifier and slot must parse, and an
/// empty screenshot or description counts as absent.
pub fn assemble_upload(
    game_id: Option<String>,
    slot: Option<String>,
    save_data: Option<Vec<u8>>,
    screenshot: Option<Vec<u8>>,
    description: Option<String>,
) -> (r: Result<UploadRequest, ApiError>)
    ensures
        game_id is None ==> (r matches Err(e) && e matches ApiError::BadRequest(m) && m@
            == "Missing game_id"@),
        game_id matches Some(g) && !crate::ids::is_uuid_str(g@) ==> (r matches Err(e) && e matches
            ApiError::BadRequest(m) && m@ == "Invalid game_id UUID"@),
        game_id matches Some(g) && crate::ids::is_uuid_str(g@) && slot is None ==> (r matches Err(
            e,
        ) && e matches ApiError::BadRequest(m) && m@ == "Missing slot"@),
        game_id matches Some(g) && crate::ids::is_uuid_str(g@) && (slot matches Some(sl) && !(
        crate::text::is_signed_dec_seq(sl@) && i32::MIN <= crate::text::signed_dec_val(sl@)
            <= i32::MAX)) ==> (r matches Err(e) && e matches ApiError::BadRequest(m) && m@
            == "Invalid slot number"@),
        r is Ok ==> save_data is Some,
        r matches Err(e) ==> (e matches ApiError::BadRequest(m) ==> m@ == "Missing game_id"@ || m@
            == "Invalid game_id UUID"@ || m@ == "Missing slot"@ || m@ == "Invalid slot number"@
            || m@ == "Missing save_data"@),
        (game_id matches Some(g) && crate::ids::is_uuid_str(g@)) && (slot matches Some(sl)
            && crate::text::is_signed_dec_seq(sl@) && i32::MIN <= crate::text::signed_dec_val(sl@)
            <= i32::MAX) && save_data is Some ==> r is Ok,
        r matches Ok(req) ==> {
            &&& game_id matches Some(g) && g@ == uuid_str_of(req.game_id)
            &&& slot matches Some(sl) && crate::text::signed_dec_val(sl@) == req.slot
            &&& save_data matches Some(d) && req.save_data == d
            &&& (match screenshot {
                Some(b) => if b@.len() == 0 {
                    req.screenshot is None
                } else {
                    req.screenshot == Some(b)
                },
                None => req.screenshot is None,
            })
            &&& (match description {
                Some(d) => if d@.len() == 0 {
                    req.description is None
                } else {
                    req.description == Some(d)
                },
                None => req.description is None,
            })
        },
{
    let gid = match game_id {
        Some(g) => match crate::ids::parse_uuid(g.as_str()) {
            Some(v) => v,
            None => {
                return Err(ApiError::BadRequest(String::from_str("Invalid game_id UUID")));
            },
        },
        None => {
            return Err(ApiError::BadRequest(String::from_str("Missing game_id")));
        },
    };
    let slot_num = match slot {
        Some(sl) => match crate::text::parse_i32(sl.as_str()) {
            Some(v) => v,
            None => {
                return Err(ApiError::BadRequest(String::from_str("Invalid slot number")));
            },
        },
        None => {
            return Err(ApiError::BadRequest(String::from_str("Missing slot")));
        },
    };
    let data = match save_data {
        Some(d) => d,
        None => {
            return Err(ApiError::BadRequest(String::from_str("Missing save_data")));
        },
    };
    let shot = match screenshot {
        Some(b) => if b.is_empty() {
            None
        } else {
            Some(b)
        },
        None => None,
    };
    let desc = match description {
        Some(d) => if d.as_str().is_empty() {
            None
        } else {
            Some(d)
        },
        None => None,
    };
    Ok(UploadRequest { game_id: gid, slot: slot_num, save_data: data, screenshot: shot, description: desc })
}

/// The save-state store: blob writes first, then the delete-then-insert
/// replace that enforces one row per slot.
#[derive(Clone)]
pub struct SaveService {
    save_storage_path: String,
}

impl SaveService {
    pub closed spec fn spec_storage_path(&self) -> Seq<char> {
        self.save_storage_path@
    }

    pub fn new(save_storage_path: String) -> (s: SaveService)
        ensures
            s.spec_storage_path() == save_storage_path@,
    {
        SaveService { save_storage_path }
    }

    /// The blob path for a stored filename.
    pub fn get_save_file_path(&self, filename: &str) -> (r: String)
        ensures
            r@ == self.spec_storage_path() + "/"@ + filename@,
    {
        let mut s = self.save_storage_path.clone();
        s.append("/");
        s.append(filename);
        assert(s@ =~= self.spec_storage_path() + "/"@ + filename@);
        s
    }

    /// All saves of one (user, game) pair, ordered by slot ascending.
    pub fn get_user_saves(&self, table: &SaveTable, user_id: u128, game_id: u128) -> (r: Result<
        Vec<SaveState>,
        ApiError,
    >)
        ensures
            r matches Ok(v) && sorted_by_slot(v@) && v@.to_multiset() == keep_pair(
                table.rows(),
                user_id,
                game_id,
            ).to_multiset(),
    {
        let n = table.rows_vec.len();
        let mut work: Vec<SaveState> = Vec::new();
        let mut i: usize = 0;
        while i < n
            invariant
                n == table.rows().len(),
                0 <= i <= n,
                work@ == keep_pair(table.rows().take(i as int), user_id, game_id),
            decreases n - i,
        {
            proof {
                assert(table.rows().take(i + 1).drop_last() =~= table.rows().take(i as int));
                assert(table.rows().take(i + 1).last() == table.rows()[i as int]);
            }
            if table.rows_vec[i].user_id == user_id && table.rows_vec[i].game_id == game_id {
                work.push(table.rows_vec[i].duplicate());
            }
            i = i + 1;
        }
        assert(table.rows().take(n as int) =~= table.rows());
        let ghost all = work@;
        let mut out: Vec<SaveState> = Vec::new();
        while work.len() > 0
            invariant
                sorted_by_slot(out@),
                forall|a: int, b: int|
                    0 <= a < out@.len() && 0 <= b < work@.len() ==> (#[trigger] out@[a]).slot <= (
                    #[trigger] work@[b]).slot,
                out@.to_multiset().add(work@.to_multiset()) == all.to_multiset(),
            decreases work.len(),
        {
            let mut m: usize = 0;
            let mut k: usize = 1;
            while k < work.len()
                invariant
                    0 <= m < work@.len(),
                    m < k <= work@.len() || (k <= work@.len() && m == 0),
                    forall|t: int| 0 <= t < k ==> work@[m as int].slot <= (#[trigger] work@[t]).slot,
                decreases work.len() - k,
            {
                if work[k].slot < work[m].slot {
                    m = k;
                }
                k = k + 1;
            }
            let ghost pre_work = work@;
            let ghost pre_out = out@;
            let row = work.remove(m);
            out.push(row);
            proof {
                assert(out@.to_multiset() =~= pre_out.to_multiset().insert(pre_work[m as int]));
                assert(work@.to_multiset() =~= pre_work.to_multiset().remove(pre_work[m as int]));
                assert(pre_work.contains(pre_work[m as int]));
                assert(pre_work.to_multiset().count(pre_work[m as int]) > 0);
                assert(out@.to_multiset().add(work@.to_multiset()) =~= all.to_multiset());
                assert forall|a: int, b: int|
                    0 <= a < out@.len() && 0 <= b < work@.len() implies (#[trigger] out@[a]).slot
                    <= (#[trigger] work@[b]).slot by {
                    if b < m {
                        assert(work@[b] == pre_work[b]);
                    } else {
                        assert(work@[b] == pre_work[b + 1]);
                    }
                    if a < out@.len() - 1 {
                        assert(out@[a] == pre_out[a]);
                    }
                }
                assert(sorted_by_slot(out@)) by {
                    assert forall|a: int, b: int|
                        #![trigger out@[a], out@[b]]
                        0 <= a < b < out@.len() implies out@[a].slot <= out@[b].slot by {
                        if b < out@.len() - 1 {
                            assert(out@[a] == pre_out[a] && out@[b] == pre_out[b]);
                        } else {
                            assert(out@[a] == pre_out[a] && out@[b] == pre_work[m as int]);
                        }
                    }
                }
            }
        }
        proof {
            assert(work@ =~= Seq::<SaveState>::empty());
            assert(work@.to_multiset().len() == 0);
            assert(work@.to_multiset() =~= Multiset::<SaveState>::empty());
            assert(out@.to_multiset() =~= all.to_multiset());
        }
        Ok(out)
    }

    /// One save by id; absence maps to the store's not-found error.
    pub fn get_save_state<'a>(&self, table: &'a SaveTable, save_id: u128) -> (r: Result<
        &'a SaveState,
        ApiError,
    >)
        ensures
            match r {
                Ok(s) => s.id == save_id && exists|i: int|
                    0 <= i < table.rows().len() && #[trigger] table.rows()[i] == *s,
                Err(e) => !table.has_id(save_id) && (e matches ApiError::NotFound(m) && m@
                    == not_found_msg()),
            },
    {
        match table.find_by_id(save_id) {
            Some(s) => Ok(s),
            None => Err(ApiError::NotFound(String::from_str("Resource not found"))),
        }
    }

    /// Upload: writes the blobs under the slot's deterministic names, then
    /// replaces any row of the same (user, game, slot) — delete then insert,
    /// the slot-uniqueness mechanism — and returns the persisted row.
    pub fn create_save_state(
        &self,
        table: &mut SaveTable,
        blobs: &mut BlobStore,
        user_id: u128,
        game_id: u128,
        slot: i32,
        save_data: Vec<u8>,
        screenshot: Option<Vec<u8>>,
        description: Option<String>,
        now: i64,
    ) -> (r: Result<SaveState, ApiError>)
        requires
            old(table).wf(),
            old(table).spec_next_id() < u128::MAX,
        ensures
            final(table).wf(),
            r matches Ok(s) ==> {
                &&& s.user_id == user_id
                &&& s.game_id == game_id
                &&& s.slot == slot
                &&& s.id == old(table).spec_next_id()
                &&& s.save_data_filename@ == spec_save_filename(user_id, game_id, slot)
                &&& (match screenshot {
                    Some(_) => s.screenshot_filename matches Some(f) && f@
                        == spec_screenshot_filename(user_id, game_id, slot),
                    None => s.screenshot_filename is None,
                })
                &&& s.description == description
                &&& s.created_at == now
                &&& final(table).rows() == drop_triple(
                    old(table).rows(),
                    user_id,
                    game_id,
                    slot,
                ).push(s)
                &&& final(table).spec_next_id() == old(table).spec_next_id() + 1
                &&& final(blobs).blob(spec_save_filename(user_id, game_id, slot)) == Some(
                    save_data@,
                )
                &&& (screenshot matches Some(b) ==> final(blobs).blob(
                    spec_screenshot_filename(user_id, game_id, slot),
                ) == Some(b@))
                &&& forall|nm: Seq<char>|
                    nm != spec_save_filename(user_id, game_id, slot) && nm
                        != spec_screenshot_filename(user_id, game_id, slot)
                        ==> #[trigger] final(blobs).blob(nm) == old(blobs).blob(nm)
                &&& (screenshot is None ==> forall|nm: Seq<char>|
                    nm != spec_save_filename(user_id, game_id, slot)
                        ==> #[trigger] final(blobs).blob(nm) == old(blobs).blob(nm))
            },
            r is Ok,
    {
        let fname = save_data_filename(user_id, game_id, slot);
        let row_fname = fname.clone();
        blobs.write(fname, save_data);
        let shot_name = match screenshot {
            Some(bytes) => {
                let sname = screenshot_filename(user_id, game_id, slot);
                let row_sname = sname.clone();
                blobs.write(sname, bytes);
                Some(row_sname)
            },
            None => None,
        };
        let row = SaveState {
            id: table.next_id,
            user_id,
            game_id,
            slot,
            save_data_filename: row_fname,
            screenshot_filename: shot_name,
            description,
            created_at: now,
        };
        let result = row.duplicate();
        let n = table.rows_vec.len();
        let mut kept: Vec<SaveState> = Vec::new();
        let mut i: usize = 0;
        while i < n
            invariant
                n == table.rows().len(),
                0 <= i <= n,
                kept@ == drop_triple(table.rows().take(i as int), user_id, game_id, slot),
            decreases n - i,
        {
            proof {
                assert(table.rows().take(i + 1).drop_last() =~= table.rows().take(i as int));
                assert(table.rows().take(i + 1).last() == table.rows()[i as int]);
            }
            if !(table.rows_vec[i].user_id == user_id && table.rows_vec[i].game_id == game_id
                && table.rows_vec[i].slot == slot) {
                kept.push(table.rows_vec[i].duplicate());
            }
            i = i + 1;
        }
        assert(table.rows().take(n as int) =~= table.rows());
        proof {
            lemma_drop_triple_props(table.rows(), user_id, game_id, slot);
        }
        let ghost pre = *table;
        kept.push(row);
        table.rows_vec = kept;
        table.next_id = table.next_id + 1;
        proof {
            lemma_filenames_distinct(user_id, game_id, slot);
            let dt = drop_triple(pre.rows(), user_id, game_id, slot);
            assert(table.rows() =~= dt.push(result));
            assert forall|a: int, b: int|
                #![trigger table.rows()[a], table.rows()[b]]
                0 <= a < b < table.rows().len() implies table.rows()[a].id != table.rows()[b].id
                && !(table.rows()[a].user_id == table.rows()[b].user_id && table.rows()[a].game_id
                == table.rows()[b].game_id && table.rows()[a].slot
                == table.rows()[b].slot) by {
                if b == table.rows().len() - 1 {
                    assert(table.rows()[a] == dt[a]);
                    let i0 = choose|i0: int| 0 <= i0 < pre.rows().len() && pre.rows()[i0] == dt[a];
                    assert(pre.rows()[i0].id < pre.spec_next_id());
                    assert(!is_triple(dt[a], user_id, game_id, slot));
                } else {
                    assert(table.rows()[a] == dt[a] && table.rows()[b] == dt[b]);
                }
            }
            assert forall|a: int| 0 <= a < table.rows().len() implies (#[trigger] table.rows()[a]).id
                < table.spec_next_id() by {
                if a < table.rows().len() - 1 {
                    assert(table.rows()[a] == dt[a]);
                    let i0 = choose|i0: int| 0 <= i0 < pre.rows().len() && pre.rows()[i0] == dt[a];
                    assert(pre.rows()[i0].id < pre.spec_next_id());
                }
            }
        }
        Ok(result)
    }

    /// Download: the row's owner alone may read it, and is owed the stored
    /// bytes while the backing blob exists; a row whose backing blob is gone
    /// maps to not-found, never to a crash.
    pub fn download<'a>(
        &self,
        table: &SaveTable,
        blobs: &'a BlobStore,
        save_id: u128,
        user_id: u128,
    ) -> (r: Result<&'a Vec<u8>, ApiError>)
        requires
            table.wf(),
        ensures
            !table.has_id(save_id) ==> (r matches Err(e) && e matches ApiError::NotFound(m) && m@
                == not_found_msg()),
            (exists|i: int|
                0 <= i < table.rows().len() && (#[trigger] table.rows()[i]).id == save_id
                    && table.rows()[i].user_id != user_id) ==> (r matches Err(e) && e matches
                ApiError::Forbidden(m) && m@ == download_forbidden_msg()),
            (exists|i: int|
                0 <= i < table.rows().len() && (#[trigger] table.rows()[i]).id == save_id
                    && table.rows()[i].user_id == user_id && blobs.blob(
                    table.rows()[i].save_data_filename@,
                ) is Some) ==> r is Ok,
            (exists|i: int|
                0 <= i < table.rows().len() && (#[trigger] table.rows()[i]).id == save_id
                    && table.rows()[i].user_id == user_id && blobs.blob(
                    table.rows()[i].save_data_filename@,
                ) is None) ==> (r matches Err(e) && e matches ApiError::NotFound(m) && m@
                == save_file_missing_msg()),
            r matches Ok(d) ==> exists|i: int|
                0 <= i < table.rows().len() && (#[trigger] table.rows()[i]).id == save_id
                    && table.rows()[i].user_id == user_id && blobs.blob(
                    table.rows()[i].save_data_filename@,
                ) == Some(d@),
    {
        let row = match table.find_by_id(save_id) {
            Some(s) => s,
            None => {
                return Err(ApiError::NotFound(String::from_str("Resource not found")));
            },
        };
        if row.user_id != user_id {
            return Err(
                ApiError::Forbidden(
                    String::from_str("Not authorized to access this save state"),
                ),
            );
        }
        match blobs.read(row.save_data_filename.as_str()) {
            Some(d) => Ok(d),
            None => Err(ApiError::NotFound(String::from_str("Save file not found"))),
        }
    }

    /// Delete: the owner alone may delete, and is owed success on an owned
    /// row; removes the save blob, then the screenshot blob if any
    /// (non-essential, removal cannot fail in the model), then the row, so a
    /// dangling row can never outlive its files unnoticed. A refusal leaves
    /// both stores untouched.
    pub fn delete_save_state(
        &self,
        table: &mut SaveTable,
        blobs: &mut BlobStore,
        save_id: u128,
        user_id: u128,
    ) -> (r: Result<(), ApiError>)
        requires
            old(table).wf(),
        ensures
            final(table).wf(),
            final(table).spec_next_id() == old(table).spec_next_id(),
            r is Err ==> *final(table) == *old(table) && *final(blobs) == *old(blobs),
            (exists|i: int|
                0 <= i < old(table).rows().len() && (#[trigger] old(table).rows()[i]).id == save_id
                    && old(table).rows()[i].user_id == user_id) ==> r is Ok,
            !old(table).has_id(save_id) ==> *final(table) == *old(table) && *final(blobs) == *old(
                blobs,
            ) && (r matches Err(e) && e matches ApiError::NotFound(m) && m@ == not_found_msg()),
            (exists|i: int|
                0 <= i < old(table).rows().len() && (#[trigger] old(table).rows()[i]).id == save_id
                    && old(table).rows()[i].user_id != user_id) ==> *final(table) == *old(table)
                && *final(blobs) == *old(blobs) && (r matches Err(e) && e matches
                ApiError::Forbidden(m) && m@ == delete_forbidden_msg()),
            r is Ok ==> exists|i: int|
                {
                    &&& 0 <= i < old(table).rows().len()
                    &&& (#[trigger] old(table).rows()[i]).id == save_id
                    &&& old(table).rows()[i].user_id == user_id
                    &&& final(table).rows() == drop_id(old(table).rows(), save_id)
                    &&& final(blobs).blob(old(table).rows()[i].save_data_filename@) is None
                    &&& (old(table).rows()[i].screenshot_filename matches Some(f)
                        ==> final(blobs).blob(f@) is None)
                    &&& forall|nm: Seq<char>|
                        nm != old(table).rows()[i].save_data_filename@ && (match old(table)
                            .rows()[i].screenshot_filename {
                            Some(f) => nm != f@,
                            None => true,
                        }) ==> #[trigger] final(blobs).blob(nm) == old(blobs).blob(nm)
                },
    {
        let row = match table.find_by_id(save_id) {
            Some(s) => s.duplicate(),
            None => {
                return Err(ApiError::NotFound(String::from_str("Resource not found")));
            },
        };
        if row.user_id != user_id {
            return Err(
                ApiError::Forbidden(
                    String::from_str("Not authorized to delete this save state"),
                ),
            );
        }
        blobs.delete(row.save_data_filename.as_str());
        match &row.screenshot_filename {
            Some(f) => {
                blobs.delete(f.as_str());
            },
            None => (),
        }
        let n = table.rows_vec.len();
        let mut kept: Vec<SaveState> = Vec::new();
        let mut i: usize = 0;
        while i < n
            invariant
                n == table.rows().len(),
                0 <= i <= n,
                kept@ == drop_id(table.rows().take(i as int), save_id),
            decreases n - i,
        {
            proof {
                assert(table.rows().take(i + 1).drop_last() =~= table.rows().take(i as int));
                assert(table.rows().take(i + 1).last() == table.rows()[i as int]);
            }
            if table.rows_vec[i].id != save_id {
                kept.push(table.rows_vec[i].duplicate());
            }
            i = i + 1;
        }
        assert(table.rows().take(n as int) =~= table.rows());
        proof {
            lemma_drop_id_props(table.rows(), save_id);
        }
        let ghost pre = *table;
        table.rows_vec = kept;
        proof {
            let dt = drop_id(pre.rows(), save_id);
            assert(table.rows() =~= dt);
            assert forall|a: int| 0 <= a < table.rows().len() implies (#[trigger] table.rows()[a]).id
                < table.spec_next_id() by {
                let i0 = choose|i0: int|
                    0 <= i0 < pre.rows().len() && pre.rows()[i0] == table.rows()[a];
                assert(pre.rows()[i0].id < pre.spec_next_id());
            }
        }
        Ok(())
    }
}

} // verus!
