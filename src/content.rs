//! Assembly steps of the content compiler.
//!
//! The compiler gathers a map, quest or class-stats directory into one record
//! before it is written out in the compact form. Reading the files is the
//! runtime's part; here the parsed pieces, in the order the directory walk
//! found them, are put together.

use vstd::prelude::*;

verus! {

/// The parts of a map that its directory contributes besides `data.json`.
#[derive(Clone, Debug, PartialEq, Eq)]
pub struct MapData<O, T, E, N> {
    /// Script sources by name, each name at most once.
    pub luas: Vec<(String, String)>,
    pub objects: Vec<O>,
    pub transporters: Vec<T>,
    pub events: Vec<E>,
    pub npcs: Vec<N>,
}

/// What a walk of a map directory found: one list per file, per subdirectory.
#[derive(Clone, Debug, PartialEq, Eq)]
pub struct MapFiles<O, T, E, N> {
    /// Script files as (file stem, source), in the order they were found.
    pub luas: Vec<(String, String)>,
    pub objects: Vec<Vec<O>>,
    pub transporters: Vec<Vec<T>>,
    pub events: Vec<Vec<E>>,
    pub npcs: Vec<Vec<N>>,
}

/// A quest and the parts that its directory contributes.
#[derive(Clone, Debug, PartialEq, Eq)]
pub struct QuestData<O, T, E, N, En> {
    pub map: MapData<O, T, E, N>,
    pub enemies: Vec<En>,
}

/// The per-race level modifiers file.
#[derive(Clone, Debug, PartialEq, Eq)]
pub struct RaceModifiers<M> {
    pub human_male: M,
    pub human_female: M,
    pub newman_male: M,
    pub newman_female: M,
    pub cast_male: M,
    pub cast_female: M,
    pub deuman_male: M,
    pub deuman_female: M,
}

/// Compiled player stats: the race modifiers in race order, and each class's
/// stats at the class's index (`None` where no file named that class).
#[derive(Clone, Debug, PartialEq, Eq)]
pub struct PlayerStats<M, S> {
    pub modifiers: Vec<M>,
    pub stats: Vec<Option<S>>,
}

/// The lists of all files, one after the other.
pub open spec fn flatten<T>(s: Seq<Vec<T>>) -> Seq<T>
    decreases s.len(),
{
    if s.len() == 0 {
        Seq::empty()
    } else {
        flatten(s.drop_last()) + s.last()@
    }
}

/// Appends the items of every file, in file order.
fn append_files<T>(dst: &mut Vec<T>, files: Vec<Vec<T>>)
    ensures
        final(dst)@ == old(dst)@ + flatten(files@),
{
    let ghost all = files@;
    let mut files = files;
    let ghost mut k: int = 0;
    while files.len() > 0
        invariant
            0 <= k <= all.len(),
            files@ == all.skip(k),
            dst@ == old(dst)@ + flatten(all.take(k)),
        decreases files@.len(),
    {
        let mut f = files.remove(0);
        proof {
            assert(f == all[k]);
            assert(all.take(k + 1).drop_last() =~= all.take(k));
        }
        dst.append(&mut f);
        proof {
            k = k + 1;
            assert(files@ =~= all.skip(k));
        }
    }
    proof {
        assert(all.take(k) =~= all);
    }
}

/// Script table entries as (name, source) text.
pub open spec fn lua_view(s: Seq<(String, String)>) -> Seq<(Seq<char>, Seq<char>)> {
    s.map_values(|p: (String, String)| (p.0@, p.1@))
}

/// No name occurs twice.
pub open spec fn names_unique(s: Seq<(Seq<char>, Seq<char>)>) -> bool {
    forall|i: int, j: int| 0 <= i < s.len() && 0 <= j < s.len() && i != j ==> s[i].0 != s[j].0
}

/// Source of script `k` after inserting the entries in order: the last one
/// with that name wins.
pub open spec fn lua_lookup(s: Seq<(Seq<char>, Seq<char>)>, k: Seq<char>) -> Option<Seq<char>>
    decreases s.len(),
{
    if s.len() == 0 {
        None
    } else if s.last().0 == k {
        Some(s.last().1)
    } else {
        lua_lookup(s.drop_last(), k)
    }
}

proof fn lemma_lookup_at(s: Seq<(Seq<char>, Seq<char>)>, k: Seq<char>, i: int)
    requires
        names_unique(s),
        0 <= i < s.len(),
        s[i].0 == k,
    ensures
        lua_lookup(s, k) == Some(s[i].1),
    decreases s.len(),
{
    if i != s.len() - 1 {
        assert(s.last().0 != k);
        assert(names_unique(s.drop_last()));
        lemma_lookup_at(s.drop_last(), k, i);
    }
}

proof fn lemma_lookup_absent(s: Seq<(Seq<char>, Seq<char>)>, k: Seq<char>)
    requires
        forall|i: int| 0 <= i < s.len() ==> s[i].0 != k,
    ensures
        lua_lookup(s, k) is None,
    decreases s.len(),
{
    if s.len() > 0 {
        lemma_lookup_absent(s.drop_last(), k);
    }
}

/// Inserts one script into the table, replacing one of the same name.
fn insert_lua(dst: &mut Vec<(String, String)>, name: String, src: String)
    requires
        names_unique(lua_view(old(dst)@)),
    ensures
        names_unique(lua_view(final(dst)@)),
        forall|k: Seq<char>|
            lua_lookup(lua_view(final(dst)@), k) == lua_lookup(
                lua_view(old(dst)@).push((name@, src@)),
                k,
            ),
{
    let ghost o = lua_view(dst@);
    let mut i: usize = 0;
    while i < dst.len()
        invariant
            0 <= i <= dst@.len(),
            dst@ == old(dst)@,
            o == lua_view(old(dst)@),
            names_unique(o),
            forall|j: int| 0 <= j < i ==> dst@[j].0@ != name@,
        decreases dst@.len() - i,
    {
        if dst[i].0 == name {
            let ghost nm = name@;
            let ghost sv = src@;
            dst.set(i, (name, src));
            proof {
                let n = lua_view(dst@);
                assert(n =~= o.update(i as int, (nm, sv)));
                assert forall|a: int| 0 <= a < n.len() implies n[a].0 == o[a].0 by {}
                assert(names_unique(n));
                assert forall|k: Seq<char>| lua_lookup(n, k) == lua_lookup(o.push((nm, sv)), k) by {
                    assert(o.push((nm, sv)).drop_last() =~= o);
                    if k == nm {
                        lemma_lookup_at(n, k, i as int);
                    } else if exists|j: int| 0 <= j < o.len() && o[j].0 == k {
                        let j = choose|j: int| 0 <= j < o.len() && o[j].0 == k;
                        lemma_lookup_at(n, k, j);
                        lemma_lookup_at(o, k, j);
                    } else {
                        lemma_lookup_absent(n, k);
                        lemma_lookup_absent(o, k);
                    }
                }
            }
            return;
        }
        i = i + 1;
    }
    dst.push((name, src));
    proof {
        assert(lua_view(dst@) =~= o.push((name@, src@)));
    }
}

/// Inserts the scripts of `src` into the table, in order.
fn insert_luas(dst: &mut Vec<(String, String)>, src: Vec<(String, String)>)
    requires
        names_unique(lua_view(old(dst)@)),
    ensures
        names_unique(lua_view(final(dst)@)),
        forall|k: Seq<char>|
            lua_lookup(lua_view(final(dst)@), k) == lua_lookup(
                lua_view(old(dst)@) + lua_view(src@),
                k,
            ),
{
    let ghost all = src@;
    let mut src = src;
    let ghost mut n: int = 0;
    while src.len() > 0
        invariant
            0 <= n <= all.len(),
            src@ == all.skip(n),
            names_unique(lua_view(dst@)),
            forall|k: Seq<char>|
                lua_lookup(lua_view(dst@), k) == lua_lookup(
                    lua_view(old(dst)@) + lua_view(all.take(n)),
                    k,
                ),
        decreases src@.len(),
    {
        let (name, text) = src.remove(0);
        proof {
            assert(all[n] == (name, text));
        }
        let ghost before = lua_view(dst@);
        insert_lua(dst, name, text);
        proof {
            let prev = lua_view(old(dst)@) + lua_view(all.take(n));
            let cur = lua_view(old(dst)@) + lua_view(all.take(n + 1));
            let x = (all[n].0@, all[n].1@);
            assert(all.take(n + 1) =~= all.take(n).push(all[n]));
            assert(cur =~= prev.push(x));
            assert(before.push(x).drop_last() =~= before);
            assert(prev.push(x).drop_last() =~= prev);
            assert forall|k: Seq<char>| lua_lookup(lua_view(dst@), k) == lua_lookup(cur, k) by {
                assert(lua_lookup(lua_view(dst@), k) == lua_lookup(before.push(x), k));
                assert(before.push(x).last() == x);
                assert(prev.push(x).last() == x);
                if x.0 != k {
                    assert(lua_lookup(before, k) == lua_lookup(prev, k));
                }
            }
            n = n + 1;
            assert(src@ =~= all.skip(n));
        }
    }
    proof {
        assert(all.take(n) =~= all);
    }
}

/// The map after its directory's files were added.
pub open spec fn collected<O, T, E, N>(
    m: MapData<O, T, E, N>,
    f: MapFiles<O, T, E, N>,
    n: MapData<O, T, E, N>,
) -> bool {
    &&& names_unique(lua_view(n.luas@))
    &&& forall|k: Seq<char>|
        lua_lookup(lua_view(n.luas@), k) == lua_lookup(lua_view(m.luas@) + lua_view(f.luas@), k)
    &&& n.objects@ == m.objects@ + flatten(f.objects@)
    &&& n.transporters@ == m.transporters@ + flatten(f.transporters@)
    &&& n.events@ == m.events@ + flatten(f.events@)
    &&& n.npcs@ == m.npcs@ + flatten(f.npcs@)
}

/// Adds the scripts, objects, transporters, events and npcs found in a map's
/// directory to the map.
pub fn collect_map_data<O, T, E, N>(map: &mut MapData<O, T, E, N>, files: MapFiles<O, T, E, N>)
    requires
        names_unique(lua_view(old(map).luas@)),
    ensures
        collected(*old(map), files, *final(map)),
{
    insert_luas(&mut map.luas, files.luas);
    append_files(&mut map.objects, files.objects);
    append_files(&mut map.transporters, files.transporters);
    append_files(&mut map.events, files.events);
    append_files(&mut map.npcs, files.npcs);
}

/// Compiles a map: the map read from `data.json` with its directory's files
/// added.
pub fn parse_map<O, T, E, N>(data: MapData<O, T, E, N>, files: MapFiles<O, T, E, N>) -> (r:
    MapData<O, T, E, N>)
    requires
        names_unique(lua_view(data.luas@)),
    ensures
        collected(data, files, r),
{
    let mut data = data;
    collect_map_data(&mut data, files);
    data
}

/// Compiles a quest: a quest's own map, when its directory has one, replaces
/// the map in `data.json` and gets its files added; the enemy files are added
/// to the quest's enemies.
pub fn parse_quest<O, T, E, N, En>(
    data: QuestData<O, T, E, N, En>,
    map: Option<(MapData<O, T, E, N>, MapFiles<O, T, E, N>)>,
    enemies: Vec<Vec<En>>,
) -> (r: QuestData<O, T, E, N, En>)
    requires
        map matches Some((m, f)) ==> names_unique(lua_view(m.luas@)),
    ensures
        r.enemies@ == data.enemies@ + flatten(enemies@),
        match map {
            Some((m, f)) => collected(m, f, r.map),
            None => r.map == data.map,
        },
{
    let mut data = data;
    if let Some((m, f)) = map {
        data.map = parse_map(m, f);
    }
    append_files(&mut data.enemies, enemies);
    data
}

/// The modifiers in race order.
pub open spec fn race_order<M>(m: RaceModifiers<M>) -> Seq<M> {
    seq![
        m.human_male,
        m.human_female,
        m.newman_male,
        m.newman_female,
        m.cast_male,
        m.cast_female,
        m.deuman_male,
        m.deuman_female,
    ]
}

/// Length of the stats table for these class files: one past the highest
/// class named, or zero when there are none.
pub open spec fn stats_len<S>(s: Seq<(usize, S)>) -> int
    decreases s.len(),
{
    if s.len() == 0 {
        0
    } else {
        let rest = stats_len(s.drop_last());
        if rest > s.last().0 + 1 {
            rest
        } else {
            s.last().0 + 1
        }
    }
}

/// Stats of class `c`: those of the last file that names it.
pub open spec fn last_for<S>(s: Seq<(usize, S)>, c: int) -> Option<S>
    decreases s.len(),
{
    if s.len() == 0 {
        None
    } else if s.last().0 == c {
        Some(s.last().1)
    } else {
        last_for(s.drop_last(), c)
    }
}

/// Compiles player stats: the race modifiers, when the level modifiers file
/// was there, and each class file's stats at its class's index, a later file
/// for a class replacing an earlier one.
pub fn parse_player_stats<M, S>(modifiers: Option<RaceModifiers<M>>, classes: Vec<(usize, S)>) -> (r:
    PlayerStats<M, S>)
    requires
        forall|i: int| 0 <= i < classes@.len() ==> classes@[i].0 < usize::MAX,
    ensures
        match modifiers {
            Some(m) => r.modifiers@ == race_order(m),
            None => r.modifiers@.len() == 0,
        },
        r.stats@.len() == stats_len(classes@),
        forall|c: int| 0 <= c < r.stats@.len() ==> r.stats@[c] == last_for(classes@, c),
{
    let mut data = PlayerStats { modifiers: Vec::new(), stats: Vec::new() };
    if let Some(m) = modifiers {
        data.modifiers.push(m.human_male);
        data.modifiers.push(m.human_female);
        data.modifiers.push(m.newman_male);
        data.modifiers.push(m.newman_female);
        data.modifiers.push(m.cast_male);
        data.modifiers.push(m.cast_female);
        data.modifiers.push(m.deuman_male);
        data.modifiers.push(m.deuman_female);
        proof {
            assert(data.modifiers@ =~= race_order(m));
        }
    }
    let ghost all = classes@;
    let mut classes = classes;
    let ghost mut k: int = 0;
    while classes.len() > 0
        invariant
            0 <= k <= all.len(),
            classes@ == all.skip(k),
            forall|i: int| 0 <= i < all.len() ==> all[i].0 < usize::MAX,
            data.stats@.len() == stats_len(all.take(k)),
            forall|c: int| 0 <= c < data.stats@.len() ==> data.stats@[c] == last_for(all.take(k), c),
            data.modifiers@ == (match modifiers {
                Some(m) => race_order(m),
                None => Seq::<M>::empty(),
            }),
        decreases classes@.len(),
    {
        let (class, stats) = classes.remove(0);
        proof {
            assert(all[k] == (class, stats));
            assert(all.take(k + 1).drop_last() =~= all.take(k));
        }
        let ghost before = data.stats@;
        let ghost mods = data.modifiers@;
        while data.stats.len() <= class
            invariant
                data.modifiers@ == mods,
                before.len() <= data.stats@.len(),
                data.stats@.len() > before.len() ==> data.stats@.len() <= class + 1,
                forall|c: int| 0 <= c < before.len() ==> data.stats@[c] == before[c],
                forall|c: int| before.len() <= c < data.stats@.len() ==> data.stats@[c] is None,
            decreases class + 1 - data.stats@.len(),
        {
            data.stats.push(None);
        }
        let ghost mid = data.stats@;
        data.stats.set(class, Some(stats));
        proof {
            let prev = all.take(k);
            let cur = all.take(k + 1);
            assert(cur.drop_last() =~= prev);
            assert(cur.last() == (class, stats));
            assert(data.stats@.len() == stats_len(cur));
            assert forall|c: int| 0 <= c < data.stats@.len() implies data.stats@[c] == last_for(
                cur,
                c,
            ) by {
                if c == class {
                    assert(last_for(cur, c) == Some(stats));
                } else {
                    assert(last_for(cur, c) == last_for(prev, c));
                    assert(data.stats@[c] == mid[c]);
                    if c >= before.len() {
                        last_for_beyond(prev, c);
                    } else {
                        assert(mid[c] == before[c]);
                    }
                }
            }
            k = k + 1;
            assert(classes@ =~= all.skip(k));
        }
    }
    proof {
        assert(all.take(k) =~= all);
    }
    data
}

/// No file names a class at or past the table's length.
proof fn last_for_beyond<S>(s: Seq<(usize, S)>, c: int)
    requires
        c >= stats_len(s),
    ensures
        last_for(s, c) is None,
    decreases s.len(),
{
    if s.len() > 0 {
        last_for_beyond(s.drop_last(), c);
    }
}

} // verus!
