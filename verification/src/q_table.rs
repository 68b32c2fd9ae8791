use vstd::prelude::*;
use vstd::std_specs::hash::DefaultHasherAdditionalSpecFns;
use std::collections::hash_map::DefaultHasher;
use std::collections::HashMap;
use std::hash::Hasher;
use crate::board::Board;
use crate::piece::Piece;
use crate::state::{Action, State};
use crate::value::Value;

verus! {

broadcast use vstd::std_specs::hash::group_hash_axioms;

/// What the table is keyed by: a board with its mover, and a move.
pub struct QKey {
    pub board: Board,
    pub action: Action,
}

/// What the table holds for a key: the value learned so far and how often it
/// was revised.
#[derive(PartialEq, Eq, Structural, Clone, Copy, Debug)]
pub struct QCell {
    pub value: Value,
    pub visits: u32,
}

/// One key with what is stored for it.
struct QEntry {
    state: State,
    action: Action,
    cell: QCell,
}

/// A sparse table from `(state, action)` to a value and a visit count.
///
/// Keys are compared by what they hold. What is proved of a `HashMap` rests
/// on keys of which equal ones are known to hash alike, which is known of
/// integers and not of a state. So the map is keyed by the hash code that
/// the standard hasher gives the bytes of a key, and the entries whose keys
/// share a code stand together in a bucket, in which no key occurs twice.
pub struct QTable {
    buckets: HashMap<u64, Vec<QEntry>>,
}

spec fn piece_code(piece: Piece) -> u8 {
    match piece {
        Piece::Draw => 0,
        Piece::Empty => 1,
        Piece::P1 => 2,
        Piece::P2 => 3,
    }
}

/// The four bytes of a coordinate, the lowest first.
spec fn coord_bytes(x: i32) -> Seq<u8> {
    let u = x + 0x8000_0000;
    seq![
        (u % 256) as u8,
        ((u / 256) % 256) as u8,
        ((u / 65536) % 256) as u8,
        ((u / 16777216) % 256) as u8,
    ]
}

/// A byte for each of the first `n` cells of a row.
spec fn row_bytes(row: Seq<Piece>, n: nat) -> Seq<u8>
    decreases n,
{
    if n == 0 {
        Seq::empty()
    } else {
        row_bytes(row, (n - 1) as nat).push(piece_code(row[n - 1]))
    }
}

/// A byte for each cell of the first `n` rows.
spec fn board_bytes(cells: Seq<Seq<Piece>>, n: nat) -> Seq<u8>
    decreases n,
{
    if n == 0 {
        Seq::empty()
    } else {
        board_bytes(cells, (n - 1) as nat) + row_bytes(cells[n - 1], cells[n - 1].len())
    }
}

/// The bytes that stand for a key: the cells, the mover, and the move.
spec fn key_bytes(key: QKey) -> Seq<u8> {
    board_bytes(key.board.cells, key.board.rows()).push(piece_code(key.board.on_play)).push(
        piece_code(key.action.player),
    ) + coord_bytes(key.action.position.x) + coord_bytes(key.action.position.y)
}

/// The hash code of a key: what the standard hasher makes of its bytes.
spec fn key_hash(key: QKey) -> u64 {
    DefaultHasher::spec_finish(seq![key_bytes(key)])
}

fn code_of(piece: Piece) -> (code: u8)
    ensures
        code == piece_code(piece),
{
    match piece {
        Piece::Draw => 0,
        Piece::Empty => 1,
        Piece::P1 => 2,
        Piece::P2 => 3,
    }
}

fn push_coord(bytes: &mut Vec<u8>, x: i32)
    ensures
        final(bytes)@ == old(bytes)@ + coord_bytes(x),
{
    let u: u64 = (x as i64 + 0x8000_0000) as u64;
    let ghost before = bytes@;
    bytes.push((u % 256) as u8);
    bytes.push(((u / 256) % 256) as u8);
    bytes.push(((u / 65536) % 256) as u8);
    bytes.push(((u / 16777216) % 256) as u8);
    proof {
        assert(bytes@ =~= before + coord_bytes(x));
    }
}

fn hash_of(state: &State, action: &Action) -> (hash: u64)
    ensures
        hash == key_hash(QKey { board: state@, action: *action }),
{
    let size = state.size();
    let mut bytes: Vec<u8> = Vec::new();
    let mut i: usize = 0;
    while i < size.0
        invariant
            i <= size.0,
            state@.wf(),
            size.0 == state@.rows(),
            size.1 == state@.cols(),
            bytes@ == board_bytes(state@.cells, i as nat),
        decreases size.0 - i,
    {
        let ghost start = bytes@;
        let mut j: usize = 0;
        while j < size.1
            invariant
                i < size.0,
                j <= size.1,
                state@.wf(),
                size.0 == state@.rows(),
                size.1 == state@.cols(),
                bytes@ == start + row_bytes(state@.cells[i as int], j as nat),
            decreases size.1 - j,
        {
            let ghost shown = bytes@;
            bytes.push(code_of(state.cell(i, j)));
            proof {
                let row = state@.cells[i as int];
                assert(row_bytes(row, (j + 1) as nat) == row_bytes(row, j as nat).push(
                    piece_code(row[j as int]),
                ));
                assert(bytes@ =~= start + row_bytes(row, (j + 1) as nat));
            }
            j += 1;
        }
        i += 1;
    }
    bytes.push(code_of(state.on_play()));
    bytes.push(code_of(action.player));
    push_coord(&mut bytes, action.position.x);
    push_coord(&mut bytes, action.position.y);
    assert(bytes@ == key_bytes(QKey { board: state@, action: *action }));
    let mut hasher = DefaultHasher::new();
    hasher.write(bytes.as_slice());
    proof {
        assert(hasher@ =~= seq![bytes@]);
    }
    hasher.finish()
}

impl QEntry {
    spec fn key(self) -> QKey {
        QKey { board: self.state@, action: self.action }
    }
}

/// Every key of the bucket has the hash code `hash`, and none occurs twice.
spec fn bucket_ok(bucket: Seq<QEntry>, hash: u64) -> bool {
    &&& forall|i: int| 0 <= i < bucket.len() ==> key_hash(#[trigger] bucket[i].key()) == hash
    &&& forall|i: int, j: int|
        0 <= i < j < bucket.len() ==> #[trigger] bucket[i].key() != #[trigger] bucket[j].key()
}

/// Where `key` stands in the bucket, if it does.
spec fn position(bucket: Seq<QEntry>, key: QKey) -> int {
    choose|i: int| 0 <= i < bucket.len() && #[trigger] bucket[i].key() == key
}

spec fn present(bucket: Seq<QEntry>, key: QKey) -> bool {
    exists|i: int| 0 <= i < bucket.len() && #[trigger] bucket[i].key() == key
}

proof fn lemma_position(bucket: Seq<QEntry>, hash: u64, i: int)
    requires
        bucket_ok(bucket, hash),
        0 <= i < bucket.len(),
    ensures
        present(bucket, bucket[i].key()),
        position(bucket, bucket[i].key()) == i,
{
    let key = bucket[i].key();
    let p = position(bucket, key);
    assert(0 <= p < bucket.len() && bucket[p].key() == key);
    if p < i {
        assert(bucket[p].key() != bucket[i].key());
    } else if i < p {
        assert(bucket[i].key() != bucket[p].key());
    }
}

impl QTable {
    /// The bucket in which `key` stands if the table holds it.
    closed spec fn slot(self, key: QKey) -> Seq<QEntry> {
        if self.buckets@.contains_key(key_hash(key)) {
            self.buckets@[key_hash(key)]@
        } else {
            Seq::empty()
        }
    }

    /// The table's invariant, which `new` establishes and `put` keeps.
    pub closed spec fn wf(self) -> bool {
        forall|h: u64| #[trigger]
            self.buckets@.contains_key(h) ==> bucket_ok(self.buckets@[h]@, h)
    }

    /// An empty table.
    pub fn new() -> (table: QTable)
        ensures
            table.wf(),
            table@ == Map::<QKey, QCell>::empty(),
    {
        let table = QTable { buckets: HashMap::new() };
        proof {
            assert forall|k: QKey| !present(table.slot(k), k) by {}
            assert(table@ =~= Map::<QKey, QCell>::empty());
        }
        table
    }

    /// What the table holds for the key `(state, action)`.
    pub fn get(&self, state: &State, action: &Action) -> (found: Option<QCell>)
        requires
            self.wf(),
        ensures
            found == (if self@.contains_key(QKey { board: state@, action: *action }) {
                Some(self@[QKey { board: state@, action: *action }])
            } else {
                None
            }),
    {
        let ghost key = QKey { board: state@, action: *action };
        let hash = hash_of(state, action);
        match self.buckets.get(&hash) {
            None => {
                assert(!present(self.slot(key), key));
                None
            },
            Some(bucket) => {
                assert(bucket@ == self.slot(key));
                assert(bucket_ok(bucket@, hash));
                let mut i: usize = 0;
                while i < bucket.len()
                    invariant
                        i <= bucket.len(),
                        key == (QKey { board: state@, action: *action }),
                        bucket@ == self.slot(key),
                        bucket_ok(bucket@, hash),
                        forall|n: int| 0 <= n < i ==> (#[trigger] bucket@[n].key()) != key,
                    decreases bucket.len() - i,
                {
                    if bucket[i].action == *action && bucket[i].state.same_as(state) {
                        proof {
                            assert(bucket@[i as int].key() == key);
                            lemma_position(bucket@, hash, i as int);
                        }
                        return Some(bucket[i].cell);
                    }
                    i += 1;
                }
                assert(!present(bucket@, key));
                None
            },
        }
    }

    /// Stores `cell` for the key `(state, action)`, in place of what was there.
    pub fn put(&mut self, state: &State, action: &Action, cell: QCell)
        requires
            old(self).wf(),
        ensures
            final(self).wf(),
            final(self)@ == old(self)@.insert(QKey { board: state@, action: *action }, cell),
    {
        let ghost key = QKey { board: state@, action: *action };
        let ghost before = *self;
        let hash = hash_of(state, action);
        let mut bucket = match self.buckets.remove(&hash) {
            Some(bucket) => bucket,
            None => Vec::new(),
        };
        let ghost old_bucket = bucket@;
        assert(old_bucket == before.slot(key));
        assert(bucket_ok(old_bucket, hash));
        let mut i: usize = 0;
        while i < bucket.len()
            invariant
                i <= bucket.len(),
                bucket@ == old_bucket,
                key == (QKey { board: state@, action: *action }),
                forall|n: int| 0 <= n < i ==> (#[trigger] bucket@[n].key()) != key,
            ensures
                i <= bucket.len(),
                bucket@ == old_bucket,
                forall|n: int| 0 <= n < i ==> (#[trigger] bucket@[n].key()) != key,
                i < bucket.len() ==> bucket@[i as int].key() == key,
            decreases bucket.len() - i,
        {
            if bucket[i].action == *action && bucket[i].state.same_as(state) {
                break ;
            }
            i += 1;
        }
        let entry = QEntry { state: state.clone(), action: *action, cell };
        assert(entry.key() == key);
        if i < bucket.len() {
            bucket[i] = entry;
        } else {
            bucket.push(entry);
        }
        let ghost new_bucket = bucket@;
        let ghost at = i as int;
        proof {
            assert(new_bucket[at].key() == key && new_bucket[at].cell == cell);
            assert forall|n: int| 0 <= n < new_bucket.len() && n != at implies new_bucket[n]
                == old_bucket[n] by {}
            assert forall|n: int| 0 <= n < old_bucket.len() && n != at implies old_bucket[n].key()
                != key by {
                if n > at {
                    assert(old_bucket[at].key() != old_bucket[n].key());
                }
            }
            assert(bucket_ok(new_bucket, hash)) by {
                assert forall|a: int, b: int| 0 <= a < b < new_bucket.len() implies (
                #[trigger] new_bucket[a].key()) != (#[trigger] new_bucket[b].key()) by {
                    if a != at && b != at {
                        assert(old_bucket[a].key() != old_bucket[b].key());
                    }
                }
                assert forall|n: int| 0 <= n < new_bucket.len() implies key_hash(
                    #[trigger] new_bucket[n].key(),
                ) == hash by {
                    if n != at {
                        assert(key_hash(old_bucket[n].key()) == hash);
                    }
                }
            }
        }
        self.buckets.insert(hash, bucket);
        proof {
            assert(self.buckets@ == before.buckets@.insert(hash, bucket));
            assert(self.wf()) by {
                assert forall|h: u64| #[trigger] self.buckets@.contains_key(h) implies bucket_ok(
                    self.buckets@[h]@,
                    h,
                ) by {
                    if h != hash {
                        assert(before.buckets@.contains_key(h));
                    }
                }
            }
            let target = before@.insert(key, cell);
            assert forall|k: QKey| #[trigger] self@.contains_key(k) == target.contains_key(k) && (
            target.contains_key(k) ==> self@[k] == target[k]) by {
                if key_hash(k) != hash {
                    assert(self.slot(k) == before.slot(k));
                } else if k == key {
                    lemma_position(new_bucket, hash, at);
                } else {
                    assert(self.slot(k) == new_bucket);
                    assert(before.slot(k) == old_bucket);
                    if present(old_bucket, k) {
                        let p = position(old_bucket, k);
                        assert(p != at);
                        assert(new_bucket[p].key() == k);
                        lemma_position(new_bucket, hash, p);
                    }
                    if present(new_bucket, k) {
                        let p = position(new_bucket, k);
                        assert(p != at);
                        assert(old_bucket[p].key() == k);
                        lemma_position(old_bucket, hash, p);
                    }
                }
            }
            assert(self@ =~= target);
        }
    }
}

impl View for QTable {
    type V = Map<QKey, QCell>;

    closed spec fn view(&self) -> Map<QKey, QCell> {
        Map::new(
            |k: QKey| present(self.slot(k), k),
            |k: QKey| self.slot(k)[position(self.slot(k), k)].cell,
        )
    }
}

} // verus!
