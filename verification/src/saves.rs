use vstd::prelude::*;

use crate::chunks::{hash_map_keys, Modification, WorldMap};
use crate::types::{chunk_key, key_to_pos, pos_key, BlockType, ChunkPos};
use vstd::string::StrSliceExecFns;

use crate::text::{decimal, lemma_decimal_injective, push_decimal, string_push};

verus! {

/// What the menu shows of a save file: its file name without the `.json`
/// extension, and the name of its world.
#[derive(Debug)]
pub struct SaveMetadata {
    pub file_name: String,
    pub world_name: String,
}

impl Clone for SaveMetadata {
    fn clone(&self) -> (r: SaveMetadata)
        ensures
            r == *self,
    {
        SaveMetadata { file_name: self.file_name.clone(), world_name: self.world_name.clone() }
    }
}

impl Default for SaveMetadata {
    fn default() -> (r: SaveMetadata)
        ensures
            r.file_name@ == Seq::<char>::empty(),
            r.world_name@ == Seq::<char>::empty(),
    {
        SaveMetadata { file_name: String::new(), world_name: String::new() }
    }
}

/// The file name `world<i>` given to the `i`-th new world.
pub open spec fn save_name(i: nat) -> Seq<char> {
    seq!['w', 'o', 'r', 'l', 'd'] + decimal(i)
}

/// Whether a save among `saves` uses the file name `world<i>`.
pub open spec fn save_name_taken(saves: Seq<SaveMetadata>, i: nat) -> bool {
    exists|k: int| 0 <= k < saves.len() && (#[trigger] saves[k]).file_name@ == save_name(i)
}

/// Different numbers give different file names.
pub proof fn lemma_save_name_injective(a: nat, b: nat)
    requires
        save_name(a) == save_name(b),
    ensures
        a == b,
{
    let p = seq!['w', 'o', 'r', 'l', 'd'];
    assert((p + decimal(a)).subrange(5, (p + decimal(a)).len() as int) =~= decimal(a));
    assert((p + decimal(b)).subrange(5, (p + decimal(b)).len() as int) =~= decimal(b));
    lemma_decimal_injective(a, b);
}

/// Among the names `world1` to `world<n + 1>`, `n` saves cannot use them all.
pub proof fn lemma_free_save_name_exists(saves: Seq<SaveMetadata>)
    ensures
        exists|i: nat| 1 <= i <= saves.len() + 1 && !save_name_taken(saves, i),
{
    if forall|i: nat| 1 <= i <= saves.len() + 1 ==> save_name_taken(saves, i) {
        let n = saves.len() as int;
        let x = vstd::set_lib::set_int_range(1, n + 2);
        let f = |i: int|
            choose|k: int| 0 <= k < saves.len() && (#[trigger] saves[k]).file_name@ == save_name(
                i as nat,
            );
        let y = x.map(f);
        vstd::set_lib::lemma_int_range(1, n + 2);
        assert forall|i: int| x.contains(i) implies 0 <= f(i) < n && saves[f(i)].file_name@ == save_name(
            i as nat,
        ) by {
            assert(save_name_taken(saves, i as nat));
        }
        assert(vstd::relations::injective_on(f, x)) by {
            assert forall|a: int, b: int| x.contains(a) && x.contains(b) && #[trigger] f(a) == #[trigger] f(b) implies a == b by {
                lemma_save_name_injective(a as nat, b as nat);
            }
        }
        vstd::set_lib::lemma_map_size(x, y, f);
        let r = vstd::set_lib::set_int_range(0, n);
        vstd::set_lib::lemma_int_range(0, n);
        assert(y.subset_of(r));
        vstd::set_lib::lemma_len_subset(y, r);
        assert(false);
    }
}

/// The file name `world<i>`.
fn save_file_name_for(i: u64) -> (r: String)
    ensures
        r@ == save_name(i as nat),
{
    let mut s = String::new();
    string_push(&mut s, 'w');
    string_push(&mut s, 'o');
    string_push(&mut s, 'r');
    string_push(&mut s, 'l');
    string_push(&mut s, 'd');
    push_decimal(&mut s, i);
    assert(s@ =~= save_name(i as nat));
    s
}

/// Whether a save among `saves` uses the file name `name`.
fn file_name_in_use(saves: &Vec<SaveMetadata>, name: &String) -> (r: bool)
    ensures
        r == exists|k: int| 0 <= k < saves@.len() && (#[trigger] saves@[k]).file_name@ == name@,
{
    let mut k: usize = 0;
    while k < saves.len()
        invariant
            k <= saves@.len(),
            forall|j: int| 0 <= j < k ==> (#[trigger] saves@[j]).file_name@ != name@,
        decreases saves@.len() - k,
    {
        if saves[k].file_name == *name {
            return true;
        }
        k = k + 1;
    }
    false
}

/// The file name for a new world: `world<i>` for the smallest `i >= 1` that no
/// existing save uses.
pub fn generate_new_save_file_name(saves: &Vec<SaveMetadata>) -> (r: String)
    requires
        saves@.len() < u64::MAX,
    ensures
        exists|i: nat|
            #![trigger save_name(i)]
            i >= 1 && r@ == save_name(i) && !save_name_taken(saves@, i) && forall|j: nat|
                1 <= j < i ==> save_name_taken(saves@, j),
{
    let mut i: u64 = 1;
    loop
        invariant
            saves@.len() < u64::MAX,
            1 <= i <= saves@.len() + 1,
            forall|j: nat| 1 <= j < i ==> save_name_taken(saves@, j),
        decreases saves@.len() + 1 - i,
    {
        let name = save_file_name_for(i);
        if !file_name_in_use(saves, &name) {
            return name;
        }
        proof {
            if i == saves@.len() + 1 {
                lemma_free_save_name_exists(saves@);
                let free = choose|f: nat| 1 <= f <= saves@.len() + 1 && !save_name_taken(saves@, f);
                if free < i {
                } else {
                    assert(free == i);
                }
            }
        }
        i = i + 1;
    }
}

/// The save name of a file: its name without the `.json` extension, for a
/// file name that ends with it.
pub open spec fn base_name_spec(file_name: Seq<char>) -> Option<Seq<char>> {
    if file_name.len() >= 5 && file_name.subrange(file_name.len() - 5, file_name.len() as int) == seq!['.', 'j', 's', 'o', 'n'] {
        Some(file_name.subrange(0, file_name.len() - 5))
    } else {
        None
    }
}

/// The save name of a file: its name without the `.json` extension, or `None`
/// for a file whose name does not end with `.json`.
pub fn save_base_name(file_name: &str) -> (r: Option<String>)
    ensures
        match r {
            Some(b) => base_name_spec(file_name@) == Some(b@),
            None => base_name_spec(file_name@) is None,
        },
{
    let n = file_name.unicode_len();
    if n < 5 {
        return None;
    }
    let ghost ext = seq!['.', 'j', 's', 'o', 'n'];
    let mut k: usize = 0;
    while k < 5
        invariant
            n == file_name@.len(),
            n >= 5,
            k <= 5,
            ext == seq!['.', 'j', 's', 'o', 'n'],
            forall|j: int| 0 <= j < k ==> file_name@[n - 5 + j] == ext[j],
        decreases 5 - k,
    {
        let c = file_name.get_char(n - 5 + k);
        let expected = if k == 0 {
            '.'
        } else if k == 1 {
            'j'
        } else if k == 2 {
            's'
        } else if k == 3 {
            'o'
        } else {
            'n'
        };
        if c != expected {
            assert(file_name@.subrange(n - 5, n as int)[k as int] != ext[k as int]);
            return None;
        }
        k = k + 1;
    }
    assert(file_name@.subrange(n - 5, n as int) =~= ext);
    let base = file_name.substring_char(0, n - 5);
    Some(crate::text::string_from(base))
}

/// The bytes of a save's file name.
pub open spec fn name_bytes(s: SaveMetadata) -> Seq<u8> {
    vstd::utf8::encode_utf8(s.file_name@)
}

/// Lexicographic order on byte strings of the same length.
pub open spec fn lex_lt(a: Seq<u8>, b: Seq<u8>) -> bool
    decreases a.len(),
{
    if a.len() == 0 || b.len() == 0 {
        false
    } else if a[0] < b[0] {
        true
    } else if a[0] == b[0] {
        lex_lt(a.skip(1), b.skip(1))
    } else {
        false
    }
}

/// The order of saves in the menu: shorter file names first, then by the
/// bytes of the file name.
pub open spec fn save_before(a: SaveMetadata, b: SaveMetadata) -> bool {
    let x = name_bytes(a);
    let y = name_bytes(b);
    x.len() < y.len() || (x.len() == y.len() && lex_lt(x, y))
}

proof fn lemma_lex_lt_transitive(a: Seq<u8>, b: Seq<u8>, c: Seq<u8>)
    requires
        a.len() == b.len() == c.len(),
        lex_lt(a, b),
        lex_lt(b, c),
    ensures
        lex_lt(a, c),
    decreases a.len(),
{
    if a[0] == b[0] && b[0] == c[0] {
        lemma_lex_lt_transitive(a.skip(1), b.skip(1), c.skip(1));
    }
}

proof fn lemma_lex_lt_irreflexive(a: Seq<u8>)
    ensures
        !lex_lt(a, a),
    decreases a.len(),
{
    if a.len() > 0 {
        lemma_lex_lt_irreflexive(a.skip(1));
    }
}

proof fn lemma_save_before_transitive(a: SaveMetadata, b: SaveMetadata, c: SaveMetadata)
    requires
        save_before(a, b),
        save_before(b, c),
    ensures
        save_before(a, c),
{
    if name_bytes(a).len() == name_bytes(b).len() && name_bytes(b).len() == name_bytes(c).len() {
        lemma_lex_lt_transitive(name_bytes(a), name_bytes(b), name_bytes(c));
    }
}

proof fn lemma_lex_lt_split(a: Seq<u8>, b: Seq<u8>, c: Seq<u8>)
    requires
        a.len() == b.len() == c.len(),
        lex_lt(a, c),
    ensures
        lex_lt(a, b) || lex_lt(b, c),
    decreases a.len(),
{
    if a[0] == c[0] && b[0] == a[0] {
        lemma_lex_lt_split(a.skip(1), b.skip(1), c.skip(1));
    }
}

/// The order of saves is a strict weak order: whatever comes between two saves
/// in order comes after the first or before the second.
proof fn lemma_save_before_split(a: SaveMetadata, b: SaveMetadata, c: SaveMetadata)
    requires
        save_before(a, c),
    ensures
        save_before(a, b) || save_before(b, c),
{
    if name_bytes(a).len() == name_bytes(b).len() && name_bytes(b).len() == name_bytes(c).len() {
        lemma_lex_lt_split(name_bytes(a), name_bytes(b), name_bytes(c));
    }
}

/// `after` lists the saves of `before`, `after[k]` being `before[perm[k]]`
/// and each save taken once, and saves that compare equal keep their order.
pub open spec fn stable_arrangement(perm: Seq<int>, before: Seq<SaveMetadata>, after: Seq<SaveMetadata>) -> bool {
    &&& perm.len() == after.len()
    &&& before.len() == after.len()
    &&& forall|k: int| 0 <= k < after.len() ==> 0 <= #[trigger] perm[k] < before.len() && after[k] == before[perm[k]]
    &&& forall|k: int, l: int| 0 <= k < l < after.len() ==> #[trigger] perm[k] != #[trigger] perm[l]
    &&& forall|k: int, l: int|
        0 <= k < l < after.len() && !save_before(#[trigger] after[k], #[trigger] after[l]) ==> perm[k] < perm[l]
}

/// Whether save `a` comes before save `b` in the menu.
fn save_lt(a: &SaveMetadata, b: &SaveMetadata) -> (r: bool)
    ensures
        r == save_before(*a, *b),
{
    let x = a.file_name.as_str().as_bytes();
    let y = b.file_name.as_str().as_bytes();
    if x.len() != y.len() {
        return x.len() < y.len();
    }
    let n = x.len();
    let mut i: usize = 0;
    assert(x@.skip(0) =~= x@ && y@.skip(0) =~= y@);
    while i < n
        invariant
            x@ == name_bytes(*a),
            y@ == name_bytes(*b),
            n == x@.len(),
            n == y@.len(),
            i <= n,
            lex_lt(x@, y@) == lex_lt(x@.skip(i as int), y@.skip(i as int)),
        decreases n - i,
    {
        assert(x@.skip(i as int).skip(1) =~= x@.skip(i + 1));
        assert(y@.skip(i as int).skip(1) =~= y@.skip(i + 1));
        if x[i] < y[i] {
            return true;
        }
        if x[i] > y[i] {
            return false;
        }
        i = i + 1;
    }
    false
}

/// Orders saves for the menu: shorter file names first, then by the bytes of
/// the file name; saves that compare equal keep their order.
pub fn sort_saves(saves: &mut Vec<SaveMetadata>)
    ensures
        final(saves)@.to_multiset() == old(saves)@.to_multiset(),
        forall|i: int, j: int| 0 <= i < j < final(saves)@.len() ==> !save_before(#[trigger] final(saves)@[j], #[trigger] final(saves)@[i]),
        exists|perm: Seq<int>| #[trigger] stable_arrangement(perm, old(saves)@, final(saves)@),
{
    broadcast use vstd::seq_lib::to_multiset_build, vstd::seq_lib::to_multiset_insert, vstd::multiset::group_multiset_axioms;

    let mut sorted: Vec<SaveMetadata> = Vec::new();
    let mut i: usize = 0;
    let ghost mut perm: Seq<int> = Seq::empty();
    assert(saves@.take(0) =~= Seq::<SaveMetadata>::empty());
    assert(sorted@ =~= Seq::<SaveMetadata>::empty());
    while i < saves.len()
        invariant
            i <= saves@.len(),
            perm.len() == sorted@.len(),
            sorted@.len() == i,
            forall|k: int| 0 <= k < sorted@.len() ==> 0 <= #[trigger] perm[k] < i && sorted@[k] == saves@[perm[k]],
            forall|k: int, l: int| 0 <= k < l < sorted@.len() ==> #[trigger] perm[k] != #[trigger] perm[l],
            forall|k: int, l: int|
                0 <= k < l < sorted@.len() && !save_before(#[trigger] sorted@[k], #[trigger] sorted@[l]) ==> perm[k] < perm[l],
            sorted@.to_multiset() == saves@.take(i as int).to_multiset(),
            forall|a: int, b: int| 0 <= a < b < sorted@.len() ==> !save_before(#[trigger] sorted@[b], #[trigger] sorted@[a]),
        decreases saves@.len() - i,
    {
        let e = saves[i].clone();
        // Insert after every save that does not come after it.
        let mut p: usize = 0;
        while p < sorted.len() && !save_lt(&e, &sorted[p])
            invariant
                p <= sorted@.len(),
                forall|k: int| 0 <= k < p ==> !save_before(e, #[trigger] sorted@[k]),
            decreases sorted@.len() - p,
        {
            p = p + 1;
        }
        let ghost before = sorted@;
        let ghost old_perm = perm;
        assert(p < before.len() ==> save_before(e, before[p as int]));
        assert(e == saves@[i as int]);
        sorted.insert(p, e);
        proof {
            perm = old_perm.insert(p as int, i as int);
            assert(sorted@ == before.insert(p as int, e));
            assert forall|k: int| 0 <= k < sorted@.len() implies 0 <= #[trigger] perm[k] < i + 1 && sorted@[k] == saves@[perm[k]] by {
                if k < p {
                    assert(perm[k] == old_perm[k] && sorted@[k] == before[k]);
                } else if k > p {
                    assert(perm[k] == old_perm[k - 1] && sorted@[k] == before[k - 1]);
                }
            }
            assert forall|k: int, l: int| 0 <= k < l < sorted@.len() implies #[trigger] perm[k] != #[trigger] perm[l] by {
                if k < p && l > p {
                    assert(perm[k] == old_perm[k] && perm[l] == old_perm[l - 1]);
                } else if k > p {
                    assert(perm[k] == old_perm[k - 1] && perm[l] == old_perm[l - 1]);
                } else if l < p {
                    assert(perm[k] == old_perm[k] && perm[l] == old_perm[l]);
                } else if k == p {
                    assert(perm[l] == old_perm[l - 1]);
                } else {
                    assert(perm[k] == old_perm[k]);
                }
            }
            assert forall|k: int, l: int|
                0 <= k < l < sorted@.len() && !save_before(#[trigger] sorted@[k], #[trigger] sorted@[l]) implies perm[k] < perm[l] by {
                if l < p {
                    assert(perm[k] == old_perm[k] && perm[l] == old_perm[l]);
                    assert(sorted@[k] == before[k] && sorted@[l] == before[l]);
                } else if l == p {
                    assert(perm[k] == old_perm[k]);
                } else if k == p {
                    assert(sorted@[l] == before[l - 1]);
                    assert(sorted@[k] == e);
                    if l - 1 > p {
                        assert(!save_before(before[l - 1], before[p as int]));
                    }
                    lemma_save_before_split(e, before[l - 1], before[p as int]);
                } else if k < p {
                    assert(perm[k] == old_perm[k] && perm[l] == old_perm[l - 1]);
                    assert(sorted@[k] == before[k] && sorted@[l] == before[l - 1]);
                } else {
                    assert(perm[k] == old_perm[k - 1] && perm[l] == old_perm[l - 1]);
                    assert(sorted@[k] == before[k - 1] && sorted@[l] == before[l - 1]);
                }
            }
            assert(sorted@ == before.insert(p as int, e));
            vstd::seq_lib::to_multiset_insert(before, p as int, e);
            vstd::seq_lib::to_multiset_build(saves@.take(i as int), e);
            assert(saves@.take(i + 1) =~= saves@.take(i as int).push(e));
            assert(saves@.take(i + 1) =~= saves@.take(i as int).push(saves@[i as int]));
            assert forall|a: int, b: int| 0 <= a < b < sorted@.len() implies !save_before(#[trigger] sorted@[b], #[trigger] sorted@[a]) by {
                if b < p {
                    assert(sorted@[a] == before[a] && sorted@[b] == before[b]);
                } else if b == p {
                    assert(sorted@[a] == before[a]);
                } else if a == p {
                    assert(sorted@[b] == before[b - 1]);
                    assert(sorted@[a] == e);
                    if save_before(before[b - 1], e) {
                        lemma_save_before_transitive(before[b - 1], e, before[p as int]);
                        if b - 1 > p {
                            assert(!save_before(before[b - 1], before[p as int]));
                        } else {
                            lemma_lex_lt_irreflexive(name_bytes(before[p as int]));
                        }
                    }
                } else if a < p {
                    assert(sorted@[a] == before[a] && sorted@[b] == before[b - 1]);
                } else {
                    assert(sorted@[a] == before[a - 1] && sorted@[b] == before[b - 1]);
                }
            }
        }
        i = i + 1;
    }
    assert(saves@.take(saves@.len() as int) =~= saves@);
    assert(stable_arrangement(perm, saves@, sorted@));
    *saves = sorted;
}

/// The edits of one chunk as they are written to a save file: the index and new
/// kind of each modified block, in order.
pub type ChunkEdits = (ChunkPos, Vec<(usize, BlockType)>);

/// A saved `(index, kind)` pair read as a modification.
pub open spec fn pair_modification(p: (usize, BlockType)) -> Modification {
    Modification { index: p.0, new: p.1 }
}

/// The modifications that one saved entry records.
pub open spec fn entry_modifications(e: ChunkEdits) -> Seq<Modification> {
    e.1@.map_values(|p: (usize, BlockType)| pair_modification(p))
}

/// Whether `entries` lists the recorded modifications `edits`: one entry per
/// chunk position, each holding that chunk's modifications in order.
pub open spec fn lists_edits(entries: Seq<ChunkEdits>, edits: Map<ChunkPos, Seq<Modification>>) -> bool {
    &&& forall|i: int|
        0 <= i < entries.len() ==> edits.contains_key((#[trigger] entries[i]).0)
            && entry_modifications(entries[i]) == edits[entries[i].0]
    &&& forall|p: ChunkPos| edits.contains_key(p) ==> exists|i: int| 0 <= i < entries.len() && (#[trigger] entries[i]).0 == p
    &&& forall|i: int, j: int| 0 <= i < j < entries.len() ==> (#[trigger] entries[i]).0 != (#[trigger] entries[j]).0
}

/// The modifications recorded by reading saved entries in order; a later entry
/// for the same chunk replaces an earlier one.
pub open spec fn loaded_edits(entries: Seq<ChunkEdits>) -> Map<ChunkPos, Seq<Modification>>
    decreases entries.len(),
{
    if entries.len() == 0 {
        Map::empty()
    } else {
        loaded_edits(entries.drop_last()).insert(entries.last().0, entry_modifications(entries.last()))
    }
}

/// The saved form of one chunk's modifications.
fn modifications_to_pairs(v: &Vec<Modification>) -> (r: Vec<(usize, BlockType)>)
    ensures
        r@.map_values(|p: (usize, BlockType)| pair_modification(p)) == v@,
{
    let mut r: Vec<(usize, BlockType)> = Vec::new();
    let mut i: usize = 0;
    while i < v.len()
        invariant
            i <= v@.len(),
            r@.len() == i,
            forall|j: int| 0 <= j < i ==> pair_modification(#[trigger] r@[j]) == v@[j],
        decreases v@.len() - i,
    {
        r.push((v[i].index, v[i].new));
        i = i + 1;
    }
    assert(r@.map_values(|p: (usize, BlockType)| pair_modification(p)) =~= v@);
    r
}

/// The modifications recorded in a world, as they are written to a save file:
/// one entry per modified chunk (in the map's iteration order).
pub fn edits_for_save(map: &WorldMap) -> (r: Vec<ChunkEdits>)
    ensures
        lists_edits(r@, map.edits()),
{
    let keys = hash_map_keys(&map.modified);
    let mut r: Vec<ChunkEdits> = Vec::new();
    let mut i: usize = 0;
    while i < keys.len()
        invariant
            i <= keys@.len(),
            keys@.to_set() == map.modified@.dom(),
            keys@.no_duplicates(),
            r@.len() == i,
            forall|j: int|
                0 <= j < i ==> (#[trigger] r@[j]).0 == crate::types::key_pos(keys@[j])
                    && map.edits().contains_key(r@[j].0) && entry_modifications(r@[j])
                    == map.edits()[r@[j].0],
        decreases keys@.len() - i,
    {
        let k = keys[i];
        assert(keys@.to_set().contains(k));
        let pos = key_to_pos(k);
        proof {
            crate::types::lemma_key_pos_roundtrip(k);
        }
        let pairs = match map.modified.get(&k) {
            Some(v) => modifications_to_pairs(v),
            None => Vec::new(),
        };
        r.push((pos, pairs));
        i = i + 1;
    }
    proof {
        assert forall|p: ChunkPos| map.edits().contains_key(p) implies exists|i: int| 0 <= i < r@.len() && (#[trigger] r@[i]).0 == p by {
            assert(keys@.to_set().contains(pos_key(p)));
            let j = choose|j: int| 0 <= j < keys@.len() && keys@[j] == pos_key(p);
            crate::types::lemma_pos_key_roundtrip(p);
            assert(r@[j].0 == p);
        }
        assert forall|a: int, b: int| 0 <= a < b < r@.len() implies (#[trigger] r@[a]).0 != (#[trigger] r@[b]).0 by {
            crate::types::lemma_key_pos_roundtrip(keys@[a]);
            crate::types::lemma_key_pos_roundtrip(keys@[b]);
        }
    }
    r
}

/// A world with the given seed and names and the modifications read from
/// saved entries.
pub fn map_from_save(seed: u32, world_name: String, save_file_name: String, entries: Vec<ChunkEdits>) -> (r: WorldMap)
    ensures
        r.seed == seed,
        r.world_name == world_name,
        r.save_file_name == save_file_name,
        r.edits() == loaded_edits(entries@),
{
    let mut map = WorldMap::new(seed, world_name, save_file_name);
    let mut i: usize = 0;
    while i < entries.len()
        invariant
            i <= entries@.len(),
            map.seed == seed,
            map.world_name == world_name,
            map.save_file_name == save_file_name,
            map.edits() == loaded_edits(entries@.subrange(0, i as int)),
        decreases entries@.len() - i,
    {
        let (pos, pairs) = &entries[i];
        let mut mods: Vec<Modification> = Vec::new();
        let mut j: usize = 0;
        while j < pairs.len()
            invariant
                j <= pairs@.len(),
                mods@.len() == j,
                forall|t: int| 0 <= t < j ==> #[trigger] mods@[t] == pair_modification(pairs@[t]),
            decreases pairs@.len() - j,
        {
            mods.push(Modification { index: pairs[j].0, new: pairs[j].1 });
            j = j + 1;
        }
        assert(mods@ =~= entry_modifications(entries@[i as int]));
        let k = chunk_key(*pos);
        map.modified.insert(k, mods);
        proof {
            assert(entries@.subrange(0, i + 1).drop_last() =~= entries@.subrange(0, i as int));
            assert forall|p: ChunkPos| pos_key(p) == k implies p == *pos by {
                crate::types::lemma_pos_key_injective(p, *pos);
            }
            assert(map.edits() =~= loaded_edits(entries@.subrange(0, i + 1)));
        }
        i = i + 1;
    }
    assert(entries@.subrange(0, entries@.len() as int) =~= entries@);
    map
}

/// Reading back the entries written for a world gives that world's modifications.
pub proof fn lemma_save_then_load(entries: Seq<ChunkEdits>, edits: Map<ChunkPos, Seq<Modification>>)
    requires
        lists_edits(entries, edits),
    ensures
        loaded_edits(entries) == edits,
    decreases entries.len(),
{
    if entries.len() == 0 {
        assert(loaded_edits(entries) =~= edits);
    } else {
        let last = entries.last();
        let rest = entries.drop_last();
        let smaller = edits.remove(last.0);
        assert(lists_edits(rest, smaller)) by {
            assert forall|i: int| 0 <= i < rest.len() implies smaller.contains_key((#[trigger] rest[i]).0)
                && entry_modifications(rest[i]) == smaller[rest[i].0] by {
                assert(entries[i].0 != entries[entries.len() - 1].0);
            }
            assert forall|p: ChunkPos| smaller.contains_key(p) implies exists|i: int| 0 <= i < rest.len() && (#[trigger] rest[i]).0 == p by {
                let i = choose|i: int| 0 <= i < entries.len() && (#[trigger] entries[i]).0 == p;
                assert(rest[i].0 == p);
            }
        }
        lemma_save_then_load(rest, smaller);
        assert(loaded_edits(entries) =~= edits);
    }
}

} // verus!
