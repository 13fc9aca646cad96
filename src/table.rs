//! The `people` relation and the rules that the store keeps on it: unique
//! identifiers, unique nicks, lookup by identifier, a capped case-insensitive
//! substring search, and a count.

use vstd::prelude::*;
use crate::person::{Person, PersonView};
use crate::search::{contains_seq, lower_of, lowercase, matches_folded, matches_term, search_text, search_text_of};

verus! {

/// Most records that one search returns.
pub const SEARCH_LIMIT: usize = 50;

/// The kinds of failure that a repository operation reports.
#[derive(Clone, Copy, Debug, PartialEq, Eq, Structural)]
pub enum RepositoryError {
    /// No record has the identifier looked up.
    NotFound,
    /// The record would repeat the nick (or identifier) of a stored one.
    Conflict,
    /// The store could not be reached.
    StoreUnavailable,
}

/// Some record has the nick `nick`.
pub open spec fn nick_taken(rows: Seq<PersonView>, nick: Seq<char>) -> bool {
    exists|i: int| 0 <= i < rows.len() && (#[trigger] rows[i]).nick == nick
}

/// Some record has the identifier `id`.
pub open spec fn id_taken(rows: Seq<PersonView>, id: u128) -> bool {
    exists|i: int| 0 <= i < rows.len() && (#[trigger] rows[i]).id == id
}

/// No two records share a nick or an identifier.
pub open spec fn unique_keys(rows: Seq<PersonView>) -> bool {
    forall|i: int, j: int|
        0 <= i < rows.len() && 0 <= j < rows.len() && i != j
            ==> (#[trigger] rows[i]).nick != (#[trigger] rows[j]).nick && rows[i].id != rows[j].id
}

/// The store accepts `p`: neither its nick nor its identifier is stored yet.
pub open spec fn can_insert(rows: Seq<PersonView>, p: PersonView) -> bool {
    !nick_taken(rows, p.nick) && !id_taken(rows, p.id)
}

/// The relation after an attempt to create `p`.
pub open spec fn after_create(rows: Seq<PersonView>, p: PersonView) -> Seq<PersonView> {
    if can_insert(rows, p) {
        rows.push(p)
    } else {
        rows
    }
}

/// The record with identifier `id`, if one is stored.
pub open spec fn lookup(rows: Seq<PersonView>, id: u128) -> Option<PersonView> {
    if id_taken(rows, id) {
        Some(rows[choose|i: int| 0 <= i < rows.len() && (#[trigger] rows[i]).id == id])
    } else {
        None
    }
}

/// The records that match `term`, in stored order.
pub open spec fn matching(rows: Seq<PersonView>, term: Seq<char>) -> Seq<PersonView>
    decreases rows.len(),
{
    if rows.len() == 0 {
        Seq::empty()
    } else {
        let m = matching(rows.drop_last(), term);
        if matches_term(term, rows.last()) {
            m.push(rows.last())
        } else {
            m
        }
    }
}

/// What a search for `term` returns: the first 50 matching records.
pub open spec fn search_result(rows: Seq<PersonView>, term: Seq<char>) -> Seq<PersonView> {
    let m = matching(rows, term);
    if m.len() <= SEARCH_LIMIT {
        m
    } else {
        m.subrange(0, SEARCH_LIMIT as int)
    }
}

/// How many records have the nick `nick`.
pub open spec fn count_nick(rows: Seq<PersonView>, nick: Seq<char>) -> nat
    decreases rows.len(),
{
    if rows.len() == 0 {
        0
    } else {
        count_nick(rows.drop_last(), nick) + if rows.last().nick == nick { 1nat } else { 0nat }
    }
}

/// The views of a sequence of records.
pub open spec fn views(v: Seq<Person>) -> Seq<PersonView> {
    v.map_values(|p: Person| p@)
}

/// The `people` relation, held in memory.
pub struct PeopleTable {
    rows: Vec<Person>,
}

impl View for PeopleTable {
    type V = Seq<PersonView>;

    closed spec fn view(&self) -> Seq<PersonView> {
        views(self.rows@)
    }
}

impl PeopleTable {
    /// No two stored records share a nick or an identifier.
    pub open spec fn wf(&self) -> bool {
        unique_keys(self@)
    }

    /// The empty relation.
    pub fn new() -> (r: PeopleTable)
        ensures
            r@ == Seq::<PersonView>::empty(),
            r.wf(),
    {
        let r = PeopleTable { rows: Vec::new() };
        assert(r@ =~= Seq::<PersonView>::empty());
        r
    }

    /// Stores `p`, unless its nick or its identifier is already stored, in
    /// which case the relation is left as it was and `Conflict` comes back.
    /// On success the stored record comes back.
    pub fn create_people(&mut self, p: Person) -> (r: Result<Person, RepositoryError>)
        requires
            old(self).wf(),
        ensures
            final(self)@ == after_create(old(self)@, p@),
            r is Ok <==> can_insert(old(self)@, p@),
            r matches Ok(q) ==> q@ == p@,
            r matches Err(e) ==> e == RepositoryError::Conflict,
            final(self).wf(),
    {
        let ghost rows = self@;
        let mut i: usize = 0;
        while i < self.rows.len()
            invariant
                i <= rows.len(),
                rows == self@,
                rows.len() == self.rows@.len(),
                unique_keys(rows),
                forall|j: int| 0 <= j < i ==> (#[trigger] rows[j]).nick != p@.nick && rows[j].id != p.id,
            decreases rows.len() - i,
        {
            assert(rows[i as int] == self.rows@[i as int]@);
            if self.rows[i].nick == p.nick || self.rows[i].id == p.id {
                proof {
                    if rows[i as int].nick == p@.nick {
                        assert(nick_taken(rows, p@.nick));
                    } else {
                        assert(id_taken(rows, p.id));
                    }
                }
                return Err(RepositoryError::Conflict);
            }
            i = i + 1;
        }
        let q = p.duplicate();
        self.rows.push(p);
        assert(self@ =~= rows.push(q@));
        proof { lemma_insert_keeps_unique(rows, q@); }
        Ok(q)
    }

    /// The record with identifier `id`, or `NotFound`.
    pub fn get_people_by_id(&self, id: u128) -> (r: Result<Person, RepositoryError>)
        requires
            self.wf(),
        ensures
            r is Ok <==> id_taken(self@, id),
            r matches Ok(q) ==> lookup(self@, id) == Some(q@),
            r matches Err(e) ==> e == RepositoryError::NotFound,
    {
        let ghost rows = self@;
        let mut i: usize = 0;
        while i < self.rows.len()
            invariant
                i <= rows.len(),
                rows == self@,
                rows.len() == self.rows@.len(),
                unique_keys(rows),
                forall|j: int| 0 <= j < i ==> (#[trigger] rows[j]).id != id,
            decreases rows.len() - i,
        {
            assert(rows[i as int] == self.rows@[i as int]@);
            if self.rows[i].id == id {
                let q = self.rows[i].duplicate();
                proof {
                    let k = choose|k: int| 0 <= k < rows.len() && (#[trigger] rows[k]).id == id;
                    assert(rows[k].id == rows[i as int].id);
                    assert(k == i);
                }
                return Ok(q);
            }
            i = i + 1;
        }
        Err(RepositoryError::NotFound)
    }

    /// Up to 50 records, in stored order, whose search text (name, nick and
    /// stack entries) holds `term`, ignoring case. The empty term matches
    /// every record.
    pub fn search_people(&self, term: &str) -> (r: Vec<Person>)
        requires
            self.wf(),
        ensures
            views(r@) == search_result(self@, term@),
            r@.len() <= SEARCH_LIMIT,
            term@.len() == 0 && self@.len() > 0 ==> r@.len() > 0,
    {
        let folded = lowercase(term);
        let ghost rows = self@;
        let n = self.rows.len();
        let mut out: Vec<Person> = Vec::new();
        let mut i: usize = 0;
        while i < n && out.len() < SEARCH_LIMIT
            invariant
                n == rows.len(),
                rows == self@,
                rows.len() == self.rows@.len(),
                folded@ == lower_of(term@),
                i <= n,
                views(out@) == matching(rows.subrange(0, i as int), term@),
                out@.len() <= SEARCH_LIMIT,
            decreases n - i,
        {
            assert(rows.subrange(0, i + 1).drop_last() =~= rows.subrange(0, i as int));
            assert(rows[i as int] == self.rows@[i as int]@);
            let text = search_text_of(&self.rows[i]);
            let text_folded = lowercase(text.as_str());
            if matches_folded(folded.as_str(), text_folded.as_str()) {
                let q = self.rows[i].duplicate();
                let ghost before = out@;
                out.push(q);
                assert(views(out@) =~= views(before).push(q@));
            }
            i = i + 1;
        }
        proof {
            lemma_matching_prefix(rows, term@, i as int, n as int);
            assert(rows.subrange(0, n as int) =~= rows);
            let m = matching(rows, term@);
            if out@.len() == SEARCH_LIMIT {
                assert(m.subrange(0, SEARCH_LIMIT as int) =~= views(out@));
            }
            if term@.len() == 0 && n > 0 {
                lemma_empty_term_matches(rows, term@);
            }
        }
        out
    }

    /// The number of stored records.
    pub fn count_people(&self) -> (r: usize)
        requires
            self.wf(),
        ensures
            r == self@.len(),
    {
        self.rows.len()
    }
}

proof fn lemma_insert_keeps_unique(rows: Seq<PersonView>, p: PersonView)
    requires
        unique_keys(rows),
        forall|j: int| 0 <= j < rows.len() ==> (#[trigger] rows[j]).nick != p.nick && rows[j].id != p.id,
    ensures
        unique_keys(rows.push(p)),
        can_insert(rows, p),
{
    let r = rows.push(p);
    assert forall|i: int, j: int|
        0 <= i < r.len() && 0 <= j < r.len() && i != j implies (#[trigger] r[i]).nick != (#[trigger] r[j]).nick
            && r[i].id != r[j].id by {
        if i < rows.len() && j < rows.len() {
            assert(r[i] == rows[i] && r[j] == rows[j]);
        } else if i < rows.len() {
            assert(r[i] == rows[i]);
        } else {
            assert(r[j] == rows[j]);
        }
    }
}

/// The matches within a prefix of the relation are a prefix of the matches
/// within a longer prefix.
proof fn lemma_matching_prefix(rows: Seq<PersonView>, term: Seq<char>, i: int, j: int)
    requires
        0 <= i <= j <= rows.len(),
    ensures
        matching(rows.subrange(0, i), term).len() <= matching(rows.subrange(0, j), term).len(),
        matching(rows.subrange(0, j), term).subrange(0, matching(rows.subrange(0, i), term).len() as int)
            == matching(rows.subrange(0, i), term),
    decreases j - i,
{
    let a = matching(rows.subrange(0, i), term);
    if i == j {
        assert(a.subrange(0, a.len() as int) =~= a);
    } else {
        lemma_matching_prefix(rows, term, i, j - 1);
        assert(rows.subrange(0, j).drop_last() =~= rows.subrange(0, j - 1));
        let b = matching(rows.subrange(0, j - 1), term);
        let c = matching(rows.subrange(0, j), term);
        if matches_term(term, rows.subrange(0, j).last()) {
            assert(c == b.push(rows.subrange(0, j).last()));
            assert(c.subrange(0, a.len() as int) =~= b.subrange(0, a.len() as int));
        }
    }
}

proof fn lemma_empty_term_matches(rows: Seq<PersonView>, term: Seq<char>)
    requires
        rows.len() > 0,
        lower_of(term).len() == 0,
    ensures
        search_result(rows, term).len() > 0,
{
    let hay = lower_of(search_text(rows.last()));
    assert(hay.subrange(0, 0 + lower_of(term).len() as int) =~= lower_of(term));
    assert(contains_seq(hay, lower_of(term)));
}

/// A record created under a fresh nick and a fresh identifier is found again
/// by that identifier, exactly as it was given.
pub proof fn lemma_create_then_get(rows: Seq<PersonView>, p: PersonView)
    requires
        unique_keys(rows),
        !nick_taken(rows, p.nick),
        !id_taken(rows, p.id),
    ensures
        can_insert(rows, p),
        lookup(after_create(rows, p), p.id) == Some(p),
{
    let r = rows.push(p);
    assert(r[rows.len() as int] == p);
    assert(id_taken(r, p.id));
    let k = choose|k: int| 0 <= k < r.len() && (#[trigger] r[k]).id == p.id;
    if k < rows.len() {
        assert(r[k] == rows[k]);
        assert(id_taken(rows, p.id));
    }
}

/// Creating a second record with the nick of a stored one fails, leaves the
/// relation as it was, and exactly one record keeps that nick.
pub proof fn lemma_duplicate_nick_conflicts(rows: Seq<PersonView>, first: PersonView, second: PersonView)
    requires
        unique_keys(rows),
        can_insert(rows, first),
        second.nick == first.nick,
    ensures
        !can_insert(after_create(rows, first), second),
        after_create(after_create(rows, first), second) == after_create(rows, first),
        count_nick(after_create(rows, first), first.nick) == 1,
{
    let r = rows.push(first);
    assert(r[rows.len() as int] == first);
    assert(nick_taken(r, second.nick));
    assert(r.drop_last() =~= rows);
    lemma_count_nick_absent(rows, first.nick);
}

proof fn lemma_count_nick_absent(rows: Seq<PersonView>, nick: Seq<char>)
    requires
        !nick_taken(rows, nick),
    ensures
        count_nick(rows, nick) == 0,
    decreases rows.len(),
{
    if rows.len() > 0 {
        let d = rows.drop_last();
        if nick_taken(d, nick) {
            let i = choose|i: int| 0 <= i < d.len() && (#[trigger] d[i]).nick == nick;
            assert(rows[i] == d[i]);
        }
        assert(rows[rows.len() - 1] == rows.last());
        lemma_count_nick_absent(d, nick);
    }
}

/// An identifier that no stored record has, and that a create does not
/// bring, is not found.
pub proof fn lemma_unknown_id_not_found(rows: Seq<PersonView>, p: PersonView, id: u128)
    requires
        !id_taken(rows, id),
        p.id != id,
    ensures
        lookup(rows, id) == None::<PersonView>,
        lookup(after_create(rows, p), id) == None::<PersonView>,
{
    let r = rows.push(p);
    if id_taken(r, id) {
        let k = choose|k: int| 0 <= k < r.len() && (#[trigger] r[k]).id == id;
        assert(r[k] == rows[k]);
    }
}

/// A search returns at most 50 records, whatever the term and however many
/// records are stored.
pub proof fn lemma_search_capped(rows: Seq<PersonView>, term: Seq<char>)
    ensures
        search_result(rows, term).len() <= SEARCH_LIMIT,
{
}

/// A successful create adds one record to the count, a refused one adds
/// none: the count never decreases.
pub proof fn lemma_count_after_create(rows: Seq<PersonView>, p: PersonView)
    ensures
        after_create(rows, p).len() == rows.len() + if can_insert(rows, p) { 1int } else { 0int },
        after_create(rows, p).len() >= rows.len(),
{
}

/// The relation after attempts to create each of `ps`, in order.
pub open spec fn create_all(rows: Seq<PersonView>, ps: Seq<PersonView>) -> Seq<PersonView>
    decreases ps.len(),
{
    if ps.len() == 0 {
        rows
    } else {
        after_create(create_all(rows, ps.drop_last()), ps.last())
    }
}

/// How many of the attempts to create each of `ps`, in order, succeed.
pub open spec fn accepted_count(rows: Seq<PersonView>, ps: Seq<PersonView>) -> nat
    decreases ps.len(),
{
    if ps.len() == 0 {
        0
    } else {
        accepted_count(rows, ps.drop_last())
            + if can_insert(create_all(rows, ps.drop_last()), ps.last()) { 1nat } else { 0nat }
    }
}

/// After any run of create attempts, the count is the count before plus the
/// number of attempts that succeeded.
pub proof fn lemma_count_is_accepted_creates(rows: Seq<PersonView>, ps: Seq<PersonView>)
    ensures
        create_all(rows, ps).len() == rows.len() + accepted_count(rows, ps),
    decreases ps.len(),
{
    if ps.len() > 0 {
        lemma_count_is_accepted_creates(rows, ps.drop_last());
    }
}

} // verus!
