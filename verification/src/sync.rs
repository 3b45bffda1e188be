//! Cross-device sync: which items are shared, how conflicting writes are
//! resolved, the outgoing change queue, and AES-256-GCM sealing of payloads
//! under a key derived from a shared secret with Argon2id.
use vstd::prelude::*;
use vstd::slice::slice_to_vec;

use crate::crypto::{
    aes256gcm_decrypt, aes256gcm_encrypt, aes_gcm_open, aes_gcm_p_max, aes_gcm_seal, argon2id_derive, argon2id_key,
    random_bytes,
};
use crate::text::{str_eq, to_string};

verus! {

/// Something a user can choose to keep in sync across devices.
#[derive(Debug, Clone, PartialEq, Eq, Hash)]
pub enum SyncItem {
    Agent(String),
    MemoryNamespace(String),
}

impl View for SyncItem {
    /// Whether it is an agent, and its name.
    type V = (bool, Seq<char>);

    open spec fn view(&self) -> (bool, Seq<char>) {
        match self {
            SyncItem::Agent(n) => (true, n@),
            SyncItem::MemoryNamespace(n) => (false, n@),
        }
    }
}

/// The views of a list of sync items.
pub open spec fn item_views(v: Seq<SyncItem>) -> Seq<(bool, Seq<char>)> {
    v.map_values(|i: SyncItem| i@)
}

#[derive(Debug, Clone, Copy, PartialEq, Eq, Structural)]
pub enum ConflictStrategy {
    LastWriterWins,
    Manual,
    Merge,
}

#[derive(Debug, Clone)]
pub enum PeerStatus {
    Connected,
    Disconnected,
}

#[derive(Debug, Clone)]
pub struct PeerDevice {
    pub device_id: String,
    pub last_sync: Option<String>,
    pub status: PeerStatus,
    pub pending_changes: usize,
}

#[derive(Debug, Default)]
pub struct SyncResult {
    pub synced_items: usize,
    pub conflicts_resolved: usize,
}

#[derive(Debug)]
pub enum SyncError {
    NotEnabled,
    KeyDerivation(String),
    Encryption,
    Decryption,
    CiphertextTooShort,
}

/// A conflict resolved by last-writer-wins: the losing value is kept here.
#[derive(Debug)]
pub struct ConflictEntry {
    pub key: String,
    pub discarded_value: Vec<u8>,
    pub winner_ts: u64,
}

pub struct SyncEngine {
    key: Option<[u8; 32]>,
    pub selected: Vec<SyncItem>,
    conflict_strategy: ConflictStrategy,
    queue: Vec<(String, Vec<u8>)>,
    conflict_log: Vec<ConflictEntry>,
}

// ── Specification ────────────────────────────────────────────────────────────

/// The salt the sync key is derived with.
pub open spec fn sync_salt() -> Seq<char> {
    "openhawk-sync-v1"@
}

/// The sync key for a shared secret.
pub open spec fn sync_key(secret: Seq<char>) -> Seq<u8> {
    argon2id_key(secret, sync_salt().map_values(|c: char| c as u8), 65536, 3, 1)
}

/// `out` is a sealed payload of `data` under `key`: a 12-byte nonce followed
/// by the AES-GCM sealing under that nonce.
pub open spec fn sealed_payload(key: Seq<u8>, data: Seq<u8>, out: Seq<u8>) -> bool {
    &&& out.len() >= 12
    &&& out.skip(12) == aes_gcm_seal(key, out.take(12), data)
    &&& aes_gcm_open(key, out.take(12), out.skip(12)) == Some(data)
}

/// What decrypting `data` gives with key `key`.
pub open spec fn decrypt_outcome(key: Option<Seq<u8>>, data: Seq<u8>) -> Result<Seq<u8>, SyncError> {
    if data.len() < 12 {
        Err(SyncError::CiphertextTooShort)
    } else {
        match key {
            None => Err(SyncError::NotEnabled),
            Some(k) => match aes_gcm_open(k, data.take(12), data.skip(12)) {
                Some(p) => Ok(p),
                None => Err(SyncError::Decryption),
            },
        }
    }
}

/// The queue after appending `changes` one by one to `q`.
pub open spec fn queue_after(q: Seq<(Seq<char>, Seq<u8>)>, changes: Seq<(Seq<char>, Seq<u8>)>) -> Seq<(Seq<char>, Seq<u8>)>
    decreases changes.len(),
{
    if changes.len() == 0 {
        q
    } else {
        queue_after(q, changes.drop_last()).push(changes.last())
    }
}

/// The views of queued changes.
pub open spec fn change_views(v: Seq<(String, Vec<u8>)>) -> Seq<(Seq<char>, Seq<u8>)> {
    v.map_values(|c: (String, Vec<u8>)| (c.0@, c.1@))
}

// ── Laws ─────────────────────────────────────────────────────────────────────

/// Decrypting what `encrypt` produced with the same key gives the data back.
pub proof fn decrypt_inverts_encrypt(key: Seq<u8>, data: Seq<u8>, out: Seq<u8>)
    requires
        sealed_payload(key, data, out),
    ensures
        decrypt_outcome(Some(key), out) == Ok::<Seq<u8>, SyncError>(data),
{
}

/// Changes queued one after another are flushed in the order they were
/// queued.
pub proof fn queue_keeps_order(changes: Seq<(Seq<char>, Seq<u8>)>)
    ensures
        queue_after(Seq::empty(), changes) == changes,
    decreases changes.len(),
{
    if changes.len() > 0 {
        queue_keeps_order(changes.drop_last());
        assert(changes.drop_last().push(changes.last()) =~= changes);
    }
}

/// The selection after choosing `items` in turn, from an empty one: each
/// item is added unless an equal item is there already.
pub open spec fn selection_after(items: Seq<SyncItem>) -> Seq<SyncItem>
    decreases items.len(),
{
    if items.len() == 0 {
        Seq::empty()
    } else {
        let sel = selection_after(items.drop_last());
        if item_views(sel).contains(items.last()@) {
            sel
        } else {
            sel.push(items.last())
        }
    }
}

/// After choosing `items` in turn, the selection holds each distinct item
/// exactly once, so a sync of an enabled engine reports as many items as
/// were chosen distinct ones.
pub proof fn selection_holds_each_chosen_item_once(items: Seq<SyncItem>)
    ensures
        item_views(selection_after(items)).no_duplicates(),
        item_views(selection_after(items)).to_set() == item_views(items).to_set(),
        selection_after(items).len() == item_views(items).to_set().len(),
    decreases items.len(),
{
    let sel = selection_after(items);
    if items.len() == 0 {
        assert(item_views(items).to_set() =~= Set::<(bool, Seq<char>)>::empty());
        assert(item_views(sel).to_set() =~= Set::<(bool, Seq<char>)>::empty());
    } else {
        let d = items.drop_last();
        let x = items.last();
        selection_holds_each_chosen_item_once(d);
        let prev = selection_after(d);
        selection_stays_distinct(prev, x);
        assert(item_views(items) =~= item_views(d).push(x@));
        item_views(d).lemma_push_to_set_commute(x@);
        if item_views(prev).contains(x@) {
            assert(item_views(prev).to_set().contains(x@));
            assert(item_views(items).to_set() =~= item_views(d).to_set());
        } else {
            assert(item_views(prev.push(x)) =~= item_views(prev).push(x@));
            item_views(prev).lemma_push_to_set_commute(x@);
            assert(!item_views(d).to_set().contains(x@));
        }
        item_views(sel).unique_seq_to_set();
    }
}

/// The conflict strategy in force after setting `history` in turn on a new
/// engine: the last one set, last-writer-wins if none was.
pub open spec fn strategy_after(history: Seq<ConflictStrategy>) -> ConflictStrategy {
    if history.len() == 0 {
        ConflictStrategy::LastWriterWins
    } else {
        history.last()
    }
}

/// Reading the strategy gives the last one set, or last-writer-wins on an
/// engine where none was: `states` are an engine's successive strategies,
/// from `new` through one `set_conflict_strategy` per entry of `history`.
pub proof fn strategy_read_is_last_set(history: Seq<ConflictStrategy>, states: Seq<ConflictStrategy>)
    requires
        states.len() == history.len() + 1,
        states[0] == ConflictStrategy::LastWriterWins,
        forall|k: int| 0 <= k < history.len() ==> #[trigger] states[k + 1] == history[k],
    ensures
        states.last() == strategy_after(history),
{
    if history.len() > 0 {
        assert(states[history.len() - 1 + 1] == history[history.len() - 1]);
    }
}

/// Selecting an item never makes the selection hold an item twice.
pub proof fn selection_stays_distinct(sel: Seq<SyncItem>, item: SyncItem)
    requires
        item_views(sel).no_duplicates(),
    ensures
        ({
            let after = if item_views(sel).contains(item@) {
                sel
            } else {
                sel.push(item)
            };
            item_views(after).no_duplicates() && item_views(after).contains(item@)
        }),
{
    if !item_views(sel).contains(item@) {
        let after = sel.push(item);
        assert(item_views(after) =~= item_views(sel).push(item@));
        assert(item_views(after)[sel.len() as int] == item@);
    }
}

// ── Engine ───────────────────────────────────────────────────────────────────

fn same_item(a: &SyncItem, b: &SyncItem) -> (r: bool)
    ensures
        r == (a@ == b@),
{
    match (a, b) {
        (SyncItem::Agent(x), SyncItem::Agent(y)) => str_eq(x.as_str(), y.as_str()),
        (SyncItem::MemoryNamespace(x), SyncItem::MemoryNamespace(y)) => str_eq(x.as_str(), y.as_str()),
        _ => false,
    }
}

fn items_contain(v: &Vec<SyncItem>, item: &SyncItem) -> (r: bool)
    ensures
        r == item_views(v@).contains(item@),
{
    let mut i: usize = 0;
    while i < v.len()
        invariant
            i <= v.len(),
            forall|j: int| 0 <= j < i ==> v@[j]@ != item@,
        decreases v.len() - i,
    {
        if same_item(&v[i], item) {
            assert(item_views(v@)[i as int] == item@);
            return true;
        }
        i = i + 1;
    }
    proof {
        if item_views(v@).contains(item@) {
            let j = choose|j: int| 0 <= j < item_views(v@).len() && item_views(v@)[j] == item@;
            assert(v@[j]@ == item@);
        }
    }
    false
}

fn bytes_concat(a: &[u8], b: &[u8]) -> (r: Vec<u8>)
    ensures
        r@ == a@ + b@,
{
    let mut r = slice_to_vec(a);
    let mut i: usize = 0;
    while i < b.len()
        invariant
            i <= b.len(),
            r@ == a@ + b@.take(i as int),
        decreases b.len() - i,
    {
        r.push(b[i]);
        i = i + 1;
        assert(r@ =~= a@ + b@.take(i as int));
    }
    assert(b@.take(b@.len() as int) =~= b@);
    r
}

impl SyncEngine {
    pub closed spec fn key_view(&self) -> Option<Seq<u8>> {
        match self.key {
            Some(k) => Some(k@),
            None => None,
        }
    }

    pub closed spec fn selected_view(&self) -> Seq<SyncItem> {
        self.selected@
    }

    pub closed spec fn strategy_view(&self) -> ConflictStrategy {
        self.conflict_strategy
    }

    pub closed spec fn queue_view(&self) -> Seq<(Seq<char>, Seq<u8>)> {
        change_views(self.queue@)
    }

    pub closed spec fn log_view(&self) -> Seq<ConflictEntry> {
        self.conflict_log@
    }

    /// A disabled engine with nothing selected, queued or logged, resolving
    /// conflicts last-writer-wins.
    pub fn new() -> (e: Self)
        ensures
            e.key_view() is None,
            e.selected_view().len() == 0,
            e.strategy_view() == ConflictStrategy::LastWriterWins,
            e.queue_view().len() == 0,
            e.log_view().len() == 0,
    {
        SyncEngine {
            key: None,
            selected: Vec::new(),
            conflict_strategy: ConflictStrategy::LastWriterWins,
            queue: Vec::new(),
            conflict_log: Vec::new(),
        }
    }

    /// Derives the sync key from `shared_secret`; on failure nothing changes.
    pub fn enable(&mut self, shared_secret: &str) -> (r: Result<(), SyncError>)
        ensures
            r is Ok ==> final(self).key_view() == Some(sync_key(shared_secret@)),
            r is Err ==> final(self).key_view() == old(self).key_view(),
            r matches Err(e) ==> e is KeyDerivation,
            final(self).selected_view() == old(self).selected_view(),
            final(self).strategy_view() == old(self).strategy_view(),
            final(self).queue_view() == old(self).queue_view(),
            final(self).log_view() == old(self).log_view(),
    {
        let salt: [u8; 16] = [
            0x6f, 0x70, 0x65, 0x6e, 0x68, 0x61, 0x77, 0x6b, 0x2d, 0x73, 0x79, 0x6e, 0x63, 0x2d, 0x76, 0x31,
        ];
        proof {
            reveal_strlit("openhawk-sync-v1");
            assert(salt@ =~= sync_salt().map_values(|c: char| c as u8));
        }
        match argon2id_derive(shared_secret, &salt, 65536, 3, 1) {
            Ok(k) => {
                self.key = Some(k);
                Ok(())
            },
            Err(msg) => Err(SyncError::KeyDerivation(msg)),
        }
    }

    /// Peers on the network; discovery is not implemented, so there are none.
    pub fn discover_peers(&self) -> (peers: Vec<PeerDevice>)
        ensures
            peers@.len() == 0,
    {
        Vec::new()
    }

    /// Adds `item` to the selection unless an equal item is already there.
    pub fn select_for_sync(&mut self, item: SyncItem)
        ensures
            item_views(old(self).selected_view()).contains(item@) ==> final(self).selected_view() == old(self).selected_view(),
            !item_views(old(self).selected_view()).contains(item@) ==> final(self).selected_view() == old(self).selected_view().push(item),
            final(self).key_view() == old(self).key_view(),
            final(self).strategy_view() == old(self).strategy_view(),
            final(self).queue_view() == old(self).queue_view(),
            final(self).log_view() == old(self).log_view(),
    {
        if !items_contain(&self.selected, &item) {
            self.selected.push(item);
        }
    }

    pub fn is_selected(&self, item: &SyncItem) -> (b: bool)
        ensures
            b == item_views(self.selected_view()).contains(item@),
    {
        items_contain(&self.selected, item)
    }

    /// Syncs the selected items; needs the engine to be enabled.
    pub fn sync(&self) -> (r: Result<SyncResult, SyncError>)
        ensures
            self.key_view() is None ==> r matches Err(SyncError::NotEnabled),
            self.key_view() is Some ==> (r matches Ok(res) && res.synced_items == self.selected_view().len()
                && res.conflicts_resolved == 0),
    {
        if self.key.is_none() {
            return Err(SyncError::NotEnabled);
        }
        Ok(SyncResult { synced_items: self.selected.len(), conflicts_resolved: 0 })
    }

    pub fn set_conflict_strategy(&mut self, strategy: ConflictStrategy)
        ensures
            final(self).strategy_view() == strategy,
            final(self).key_view() == old(self).key_view(),
            final(self).selected_view() == old(self).selected_view(),
            final(self).queue_view() == old(self).queue_view(),
            final(self).log_view() == old(self).log_view(),
    {
        self.conflict_strategy = strategy;
    }

    pub fn get_conflict_strategy(&self) -> (s: &ConflictStrategy)
        ensures
            *s == self.strategy_view(),
    {
        &self.conflict_strategy
    }

    /// Resolves a write conflict on `key`. Last-writer-wins keeps the newer
    /// value (the local one on a tie) and logs the discarded one; manual
    /// keeps the local value; merge appends the remote value to the local.
    pub fn resolve_conflict(
        &mut self,
        key: &str,
        local_value: &[u8],
        local_ts: u64,
        remote_value: &[u8],
        remote_ts: u64,
    ) -> (winner: Vec<u8>)
        ensures
            final(self).key_view() == old(self).key_view(),
            final(self).selected_view() == old(self).selected_view(),
            final(self).strategy_view() == old(self).strategy_view(),
            final(self).queue_view() == old(self).queue_view(),
            match old(self).strategy_view() {
                ConflictStrategy::LastWriterWins => {
                    let remote_wins = remote_ts > local_ts;
                    let log = final(self).log_view();
                    &&& log.len() == old(self).log_view().len() + 1
                    &&& log.drop_last() == old(self).log_view()
                    &&& log.last().key@ == key@
                    &&& winner@ == (if remote_wins { remote_value@ } else { local_value@ })
                    &&& log.last().discarded_value@ == (if remote_wins { local_value@ } else { remote_value@ })
                    &&& log.last().winner_ts == (if remote_wins { remote_ts } else { local_ts })
                },
                ConflictStrategy::Manual => {
                    &&& winner@ == local_value@
                    &&& final(self).log_view() == old(self).log_view()
                },
                ConflictStrategy::Merge => {
                    &&& winner@ == local_value@ + remote_value@
                    &&& final(self).log_view() == old(self).log_view()
                },
            },
    {
        match self.conflict_strategy {
            ConflictStrategy::LastWriterWins => {
                if remote_ts > local_ts {
                    self.conflict_log.push(
                        ConflictEntry {
                            key: to_string(key),
                            discarded_value: slice_to_vec(local_value),
                            winner_ts: remote_ts,
                        },
                    );
                    proof {
                        assert(self.conflict_log@.drop_last() =~= old(self).conflict_log@);
                    }
                    slice_to_vec(remote_value)
                } else {
                    self.conflict_log.push(
                        ConflictEntry {
                            key: to_string(key),
                            discarded_value: slice_to_vec(remote_value),
                            winner_ts: local_ts,
                        },
                    );
                    proof {
                        assert(self.conflict_log@.drop_last() =~= old(self).conflict_log@);
                    }
                    slice_to_vec(local_value)
                }
            },
            ConflictStrategy::Manual => slice_to_vec(local_value),
            ConflictStrategy::Merge => bytes_concat(local_value, remote_value),
        }
    }

    /// Appends a change to the outgoing queue.
    pub fn queue_change(&mut self, key: &str, value: &[u8])
        ensures
            final(self).queue_view() == old(self).queue_view().push((key@, value@)),
            final(self).key_view() == old(self).key_view(),
            final(self).selected_view() == old(self).selected_view(),
            final(self).strategy_view() == old(self).strategy_view(),
            final(self).log_view() == old(self).log_view(),
    {
        self.queue.push((to_string(key), slice_to_vec(value)));
        proof {
            assert(change_views(self.queue@) =~= change_views(old(self).queue@).push((key@, value@)));
        }
    }

    pub fn get_queued_count(&self) -> (n: usize)
        ensures
            n == self.queue_view().len(),
    {
        self.queue.len()
    }

    /// Hands out every queued change, oldest first, and empties the queue.
    pub fn flush_queue(&mut self) -> (changes: Vec<(String, Vec<u8>)>)
        ensures
            change_views(changes@) == old(self).queue_view(),
            final(self).queue_view().len() == 0,
            final(self).key_view() == old(self).key_view(),
            final(self).selected_view() == old(self).selected_view(),
            final(self).strategy_view() == old(self).strategy_view(),
            final(self).log_view() == old(self).log_view(),
    {
        let mut out: Vec<(String, Vec<u8>)> = Vec::new();
        std::mem::swap(&mut out, &mut self.queue);
        proof {
            assert(change_views(self.queue@) =~= Seq::<(Seq<char>, Seq<u8>)>::empty());
        }
        out
    }

    /// The conflicts resolved so far by last-writer-wins, oldest first.
    pub fn conflict_log(&self) -> (log: &[ConflictEntry])
        ensures
            log@ == self.log_view(),
    {
        self.conflict_log.as_slice()
    }

    /// Seals `data`: a fresh random nonce followed by the AES-256-GCM
    /// ciphertext and tag.
    pub fn encrypt(&self, data: &[u8]) -> (r: Result<Vec<u8>, SyncError>)
        ensures
            self.key_view() is None ==> r matches Err(SyncError::NotEnabled),
            self.key_view() matches Some(k) ==> match r {
                Ok(out) => sealed_payload(k, data@, out@),
                Err(e) => e is Encryption && data@.len() > aes_gcm_p_max(),
            },
    {
        let key_bytes = match &self.key {
            Some(k) => k,
            None => return Err(SyncError::NotEnabled),
        };
        let nonce = random_bytes(12);
        let sealed = match aes256gcm_encrypt(key_bytes, nonce.as_slice(), data) {
            Ok(c) => c,
            Err(_) => return Err(SyncError::Encryption),
        };
        let mut out: Vec<u8> = Vec::new();
        let mut i: usize = 0;
        while i < 12
            invariant
                i <= 12,
                nonce@.len() == 12,
                out@ == nonce@.take(i as int),
            decreases 12 - i,
        {
            out.push(nonce[i]);
            i = i + 1;
            assert(out@ =~= nonce@.take(i as int));
        }
        let mut j: usize = 0;
        while j < sealed.len()
            invariant
                j <= sealed.len(),
                nonce@.len() == 12,
                out@ == nonce@ + sealed@.take(j as int),
            decreases sealed.len() - j,
        {
            out.push(sealed[j]);
            j = j + 1;
            assert(out@ =~= nonce@ + sealed@.take(j as int));
        }
        proof {
            assert(nonce@.take(12) =~= nonce@);
            assert(sealed@.take(sealed@.len() as int) =~= sealed@);
            assert(out@.take(12) =~= nonce@);
            assert(out@.skip(12) =~= sealed@);
        }
        Ok(out)
    }

    /// Opens a payload made by `encrypt`.
    pub fn decrypt(&self, data: &[u8]) -> (r: Result<Vec<u8>, SyncError>)
        ensures
            match r {
                Ok(p) => decrypt_outcome(self.key_view(), data@) == Ok::<Seq<u8>, SyncError>(p@),
                Err(e) => decrypt_outcome(self.key_view(), data@) == Err::<Seq<u8>, SyncError>(e),
            },
    {
        if data.len() < 12 {
            return Err(SyncError::CiphertextTooShort);
        }
        let key_bytes = match &self.key {
            Some(k) => k,
            None => return Err(SyncError::NotEnabled),
        };
        let nonce = vstd::slice::slice_subrange(data, 0, 12);
        let body = vstd::slice::slice_subrange(data, 12, data.len());
        proof {
            assert(nonce@ =~= data@.take(12));
            assert(body@ =~= data@.skip(12));
        }
        match aes256gcm_decrypt(key_bytes, nonce, body) {
            Ok(p) => Ok(p),
            Err(_) => Err(SyncError::Decryption),
        }
    }
}

impl Default for SyncEngine {
    fn default() -> (e: Self)
        ensures
            e.key_view() is None,
            e.selected_view().len() == 0,
            e.strategy_view() == ConflictStrategy::LastWriterWins,
            e.queue_view().len() == 0,
            e.log_view().len() == 0,
    {
        Self::new()
    }
}


impl SyncError {
    /// The error's message, as the program prints it.
    pub fn message(&self) -> (s: String)
        ensures
            s@ == match *self {
                SyncError::NotEnabled => "sync not enabled — call enable() first"@,
                SyncError::KeyDerivation(m) => "key derivation failed: "@ + m@,
                SyncError::Encryption => "encryption failed"@,
                SyncError::Decryption => "decryption failed"@,
                SyncError::CiphertextTooShort => "ciphertext too short"@,
            },
    {
        match self {
            SyncError::NotEnabled => crate::text::to_string("sync not enabled — call enable() first"),
            SyncError::KeyDerivation(m) => crate::error::prefixed("key derivation failed: ", m),
            SyncError::Encryption => crate::text::to_string("encryption failed"),
            SyncError::Decryption => crate::text::to_string("decryption failed"),
            SyncError::CiphertextTooShort => crate::text::to_string("ciphertext too short"),
        }
    }
}

} // verus!
