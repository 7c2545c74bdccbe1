//! Ordered pool of parked sessions that no connection owns, with orphan and adopt.
use vstd::prelude::*;
use vstd::string::StringExecFns;
use crate::text::{
    decimal_chars, decimal_string, eq_ignore_ascii_case, parse_decimal_spec, parse_index,
    same_ignoring_ascii_case,
};

verus! {

/// A session parked in the pool under the name of the command it last ran.
pub struct Parked<T> {
    pub name: String,
    pub session: T,
}

/// Why an adopt failed.
#[derive(Debug, PartialEq, Eq, Structural, Clone, Copy)]
pub enum PoolError {
    /// No parked session has the index or name asked for; the pool is unchanged.
    NotFound,
}

/// Parked sessions in the order they were orphaned. Its view is the list of
/// (name, session) pairs.
pub struct ProcessPool<T> {
    entries: Vec<Parked<T>>,
}

/// Index of the first entry of `pool` whose name equals `name` up to ASCII case.
pub open spec fn first_match<T>(pool: Seq<(Seq<char>, T)>, name: Seq<char>) -> Option<int>
    decreases pool.len(),
{
    if pool.len() == 0 {
        None
    } else {
        match first_match(pool.drop_last(), name) {
            Some(i) => Some(i),
            None => if same_ignoring_ascii_case(pool.last().0, name) {
                Some(pool.len() - 1)
            } else {
                None
            },
        }
    }
}

/// The entry that adopting `target` takes: the one at that index when `target` is a
/// decimal index, else the first one named `target` up to ASCII case.
pub open spec fn adopt_target<T>(pool: Seq<(Seq<char>, T)>, target: Seq<char>) -> Option<int> {
    match parse_decimal_spec(target, usize::MAX as nat) {
        Some(i) => if i < pool.len() {
            Some(i as int)
        } else {
            None
        },
        None => first_match(pool, target),
    }
}

/// What a listing says of a session: `running` while it has a child attached.
pub open spec fn status_text(running: bool) -> Seq<char> {
    if running {
        "running"@
    } else {
        "not running"@
    }
}

/// The listing line of entry `id`: index, name and status, separated by tabs.
pub open spec fn listing_line(id: nat, name: Seq<char>, running: bool) -> Seq<char> {
    decimal_chars(id) + seq!['\t'] + name + seq!['\t'] + status_text(running)
}

/// The lines of the first `k` entries of `pool`, each ended by a newline.
pub open spec fn listing_lines<T>(pool: Seq<(Seq<char>, T)>, running: Seq<bool>, k: nat) -> Seq<char>
    decreases k,
{
    if k == 0 {
        Seq::empty()
    } else {
        listing_lines(pool, running, (k - 1) as nat) + listing_line(
            (k - 1) as nat,
            pool[k - 1].0,
            running[k - 1],
        ) + seq!['\n']
    }
}

/// The listing of `pool`: one line per entry, or a lone newline when the pool is empty.
pub open spec fn listing_of<T>(pool: Seq<(Seq<char>, T)>, running: Seq<bool>) -> Seq<char> {
    if pool.len() == 0 {
        seq!['\n']
    } else {
        listing_lines(pool, running, pool.len())
    }
}

impl<T> View for ProcessPool<T> {
    type V = Seq<(Seq<char>, T)>;

    closed spec fn view(&self) -> Seq<(Seq<char>, T)> {
        self.entries@.map_values(|p: Parked<T>| (p.name@, p.session))
    }
}

impl<T> ProcessPool<T> {
    /// An empty pool.
    pub fn new() -> (r: Self)
        ensures
            r@ == Seq::<(Seq<char>, T)>::empty(),
    {
        let r = ProcessPool { entries: Vec::new() };
        assert(r@ =~= Seq::<(Seq<char>, T)>::empty());
        r
    }

    /// Number of parked sessions.
    pub fn len(&self) -> (r: usize)
        ensures
            r == self@.len(),
    {
        self.entries.len()
    }

    /// The entry at index `i`.
    pub fn get(&self, i: usize) -> (r: &Parked<T>)
        requires
            i < self@.len(),
        ensures
            (r.name@, r.session) == self@[i as int],
    {
        &self.entries[i]
    }

    /// Parks `session` under `name` at the end of the pool and returns its index.
    pub fn orphan(&mut self, name: String, session: T) -> (r: usize)
        ensures
            r == old(self)@.len(),
            final(self)@ == old(self)@.push((name@, session)),
    {
        let r = self.entries.len();
        let ghost pair = (name@, session);
        self.entries.push(Parked { name, session });
        assert(self@ =~= old(self)@.push(pair));
        r
    }

    /// Index of the first parked session whose name equals `name` up to ASCII case.
    pub fn position_by_name(&self, name: &str) -> (r: Option<usize>)
        ensures
            r matches Some(i) ==> first_match(self@, name@) == Some(i as int) && i < self@.len(),
            r is None ==> first_match(self@, name@) is None,
    {
        let mut i: usize = 0;
        while i < self.entries.len()
            invariant
                i <= self@.len(),
                self@.len() == self.entries@.len(),
                first_match(self@.take(i as int), name@) is None,
            decreases self@.len() - i,
        {
            let ghost t = self@.take(i + 1);
            assert(t.drop_last() =~= self@.take(i as int));
            assert(t.last() == self@[i as int]);
            if eq_ignore_ascii_case(self.entries[i].name.as_str(), name) {
                proof { lemma_first_match_prefix(self@, name@, i as int + 1); }
                return Some(i);
            }
            i = i + 1;
        }
        assert(self@.take(i as int) =~= self@);
        None
    }

    /// Takes the session at index `i` out of the pool; later ones move down by one.
    pub fn remove(&mut self, i: usize) -> (r: Result<Parked<T>, PoolError>)
        ensures
            i < old(self)@.len() ==> r is Ok && final(self)@ == old(self)@.remove(i as int),
            r matches Ok(p) ==> (p.name@, p.session) == old(self)@[i as int],
            i >= old(self)@.len() ==> r == Err::<Parked<T>, PoolError>(PoolError::NotFound)
                && final(self)@ == old(self)@,
    {
        if i >= self.entries.len() {
            return Err(PoolError::NotFound);
        }
        let p = self.entries.remove(i);
        assert(self@ =~= old(self)@.remove(i as int));
        Ok(p)
    }

    /// Takes out the session that `target` names, by decimal index or by name up to ASCII
    /// case, and returns it with the index it had. Fails with `NotFound`, leaving the pool
    /// unchanged, when there is none.
    pub fn adopt(&mut self, target: &str) -> (r: Result<(usize, Parked<T>), PoolError>)
        ensures
            adopt_target(old(self)@, target@) is None ==> r == Err::<(usize, Parked<T>), PoolError>(
                PoolError::NotFound,
            ) && final(self)@ == old(self)@,
            adopt_target(old(self)@, target@) matches Some(i) ==> r is Ok && final(self)@ == old(
                self,
            )@.remove(i),
            r matches Ok((i, p)) ==> adopt_target(old(self)@, target@) == Some(i as int) && (
            p.name@, p.session) == old(self)@[i as int],
    {
        let i = match parse_index(target) {
            Some(i) => i,
            None => match self.position_by_name(target) {
                Some(i) => i,
                None => return Err(PoolError::NotFound),
            },
        };
        match self.remove(i) {
            Ok(p) => Ok((i, p)),
            Err(e) => Err(e),
        }
    }
}

impl<T> ProcessPool<T> {
    /// Lists the parked sessions; `running[i]` tells whether entry `i` has a child attached.
    pub fn listing(&self, running: &[bool]) -> (r: String)
        requires
            running@.len() == self@.len(),
        ensures
            r@ == listing_of(self@, running@),
    {
        proof {
            reveal_strlit("\t");
            reveal_strlit("\n");
        }
        let mut r = String::new();
        if self.entries.len() == 0 {
            r.append("\n");
            assert(r@ =~= seq!['\n']);
            return r;
        }
        let mut i: usize = 0;
        assert(r@ =~= listing_lines(self@, running@, 0));
        while i < self.entries.len()
            invariant
                self@.len() == self.entries@.len() == running@.len(),
                i <= self@.len(),
                r@ == listing_lines(self@, running@, i as nat),
            decreases self@.len() - i,
        {
            let e = &self.entries[i];
            proof {
                reveal_strlit("\t");
                reveal_strlit("\n");
            }
            let ghost before = r@;
            let d = decimal_string(i);
            r.append(d.as_str());
            r.append("\t");
            r.append(e.name.as_str());
            r.append("\t");
            assert(r@ =~= before + decimal_chars(i as nat) + seq!['\t'] + e.name@ + seq!['\t']);
            let ghost mid = r@;
            if running[i] {
                r.append("running");
            } else {
                r.append("not running");
            }
            assert(r@ == mid + status_text(running@[i as int]));
            r.append("\n");
            proof {
                assert(self@[i as int].0 == e.name@);
                assert(r@ =~= listing_lines(self@, running@, (i + 1) as nat));
            }
            i = i + 1;
        }
        r
    }
}

/// `first_match` of a prefix that holds a match is `first_match` of the whole sequence.
proof fn lemma_first_match_prefix<T>(pool: Seq<(Seq<char>, T)>, name: Seq<char>, k: int)
    requires
        0 <= k <= pool.len(),
        first_match(pool.take(k), name) is Some,
    ensures
        first_match(pool, name) == first_match(pool.take(k), name),
    decreases pool.len(),
{
    if k < pool.len() {
        assert(pool.drop_last().take(k) =~= pool.take(k));
        lemma_first_match_prefix(pool.drop_last(), name, k);
    } else {
        assert(pool.take(k) =~= pool);
    }
}

/// A match that `first_match` reports lies inside the pool and carries the name asked for.
pub proof fn lemma_first_match_found<T>(pool: Seq<(Seq<char>, T)>, name: Seq<char>)
    ensures
        first_match(pool, name) matches Some(i) ==> 0 <= i < pool.len()
            && same_ignoring_ascii_case(pool[i].0, name),
    decreases pool.len(),
{
    if pool.len() > 0 {
        lemma_first_match_found(pool.drop_last(), name);
    }
}

/// Orphaning a session under `name` and then adopting `name` from the same pool takes out
/// an entry named `name` up to ASCII case and brings the pool back to its earlier size.
/// When no session parked before matches `name`, the entry taken is the very session just
/// orphaned and the pool is exactly as it was. (A `name` that reads as a decimal index is
/// adopted by index instead.)
pub proof fn lemma_orphan_then_adopt_by_name<T>(pool: Seq<(Seq<char>, T)>, name: Seq<char>, session: T)
    requires
        parse_decimal_spec(name, usize::MAX as nat) is None,
    ensures
        adopt_target(pool.push((name, session)), name) matches Some(i) && {
            &&& pool.push((name, session)).remove(i).len() == pool.len()
            &&& same_ignoring_ascii_case(pool.push((name, session))[i].0, name)
        },
        first_match(pool, name) is None ==> {
            &&& adopt_target(pool.push((name, session)), name) == Some(pool.len() as int)
            &&& pool.push((name, session))[pool.len() as int] == (name, session)
            &&& pool.push((name, session)).remove(pool.len() as int) == pool
        },
{
    let grown = pool.push((name, session));
    assert(grown.drop_last() =~= pool);
    lemma_first_match_found(grown, name);
    assert(same_ignoring_ascii_case(name, name));
    assert(grown.remove(pool.len() as int) =~= pool);
}

} // verus!
