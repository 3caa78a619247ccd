//! The session table: the one cross-connection shared resource. A session
//! binds a session identifier to an authenticated tunnel and lives exactly
//! as long as the tunnel does.

use vstd::prelude::*;

verus! {

/// One live session record.
#[derive(Debug, Clone, PartialEq, Eq)]
pub struct Session {
    /// The identifier issued at handshake.
    pub session_id: String,
    /// The client's own identifier (or its address, on the framed
    /// transport).
    pub client_id: String,
    /// When the tunnel was authenticated, in milliseconds chosen by the
    /// caller's clock.
    pub connected_at: u64,
}

#[verifier::ext_equal]
pub struct SessionView {
    pub client_id: Seq<char>,
    pub connected_at: u64,
}

pub open spec fn spec_session_view(s: Session) -> SessionView {
    SessionView { client_id: s.client_id@, connected_at: s.connected_at }
}

/// The mapping an entry sequence stands for; a later entry with the same
/// identifier wins, as a map insert does.
pub open spec fn spec_entries_map(s: Seq<Session>) -> Map<Seq<char>, SessionView>
    decreases s.len(),
{
    if s.len() == 0 {
        Map::empty()
    } else {
        spec_entries_map(s.drop_last()).insert(s.last().session_id@, spec_session_view(s.last()))
    }
}

/// Relies on `uuid::Uuid::new_v4` and its hyphenated `Display` form: a fresh
/// random 128-bit identifier written as 36 characters. The value is random,
/// so nothing more is stated.
#[verifier::external_body]
pub(crate) fn fresh_uuid_string() -> (r: String)
    ensures
        r@.len() == 36,
{
    uuid::Uuid::new_v4().to_string()
}

/// The table of live sessions, keyed by session identifier.
pub struct SessionTable {
    entries: Vec<Session>,
}

impl View for SessionTable {
    type V = Map<Seq<char>, SessionView>;

    closed spec fn view(&self) -> Map<Seq<char>, SessionView> {
        spec_entries_map(self.entries@)
    }
}

/// A key is in the mapping exactly when some entry carries it.
proof fn lemma_entries_map_key(s: Seq<Session>, id: Seq<char>)
    ensures
        spec_entries_map(s).contains_key(id) <==> exists|i: int|
            0 <= i < s.len() && s[i].session_id@ == id,
    decreases s.len(),
{
    if s.len() > 0 {
        lemma_entries_map_key(s.drop_last(), id);
        if s.last().session_id@ == id {
            assert(s[s.len() - 1].session_id@ == id);
        } else if spec_entries_map(s).contains_key(id) {
            let i = choose|i: int| 0 <= i < s.drop_last().len() && s.drop_last()[i].session_id@
                == id;
            assert(s[i].session_id@ == id);
        } else {
            if exists|i: int| 0 <= i < s.len() && s[i].session_id@ == id {
                let i = choose|i: int| 0 <= i < s.len() && s[i].session_id@ == id;
                assert(i < s.len() - 1);
                assert(s.drop_last()[i].session_id@ == id);
            }
        }
    }
}

impl SessionTable {
    /// Entries carry pairwise distinct identifiers.
    pub closed spec fn wf(self) -> bool {
        forall|i: int, j: int|
            0 <= i < j < self.entries@.len() ==> (#[trigger] self.entries@[i].session_id@) != (
            #[trigger] self.entries@[j].session_id@)
    }

    /// An empty table.
    pub fn new() -> (r: SessionTable)
        ensures
            r@ == Map::<Seq<char>, SessionView>::empty(),
            r.wf(),
    {
        SessionTable { entries: Vec::new() }
    }

    /// Does the table hold a session under this identifier?
    pub fn contains_session(&self, id: &String) -> (r: bool)
        ensures
            r == self@.contains_key(id@),
    {
        proof {
            lemma_entries_map_key(self.entries@, id@);
        }
        let n = self.entries.len();
        let mut i: usize = 0;
        while i < n
            invariant
                i <= n,
                n == self.entries@.len(),
                forall|k: int| 0 <= k < i ==> (#[trigger] self.entries@[k].session_id@) != id@,
            decreases n - i,
        {
            if crate::handshake::str_eq(self.entries[i].session_id.as_str(), id.as_str()) {
                proof {
                    lemma_entries_map_key(self.entries@, id@);
                }
                return true;
            }
            i = i + 1;
        }
        false
    }

    /// Records a session under its identifier, with a map insert's
    /// semantics: an entry already there under the same identifier is
    /// replaced. The handshake only ever records fresh identifiers.
    pub fn insert_session(&mut self, s: Session)
        requires
            old(self).wf(),
        ensures
            final(self).wf(),
            final(self)@ == old(self)@.insert(s.session_id@, spec_session_view(s)),
    {
        self.remove_session(&s.session_id);
        let ghost pre = self.entries@;
        proof {
            lemma_entries_map_key(pre, s.session_id@);
        }
        self.entries.push(s);
        proof {
            assert(self.entries@.drop_last() =~= pre);
            assert(self.entries@.last() == s);
            assert(final(self)@ == spec_entries_map(pre).insert(
                s.session_id@,
                spec_session_view(s),
            ));
            assert(old(self)@.remove(s.session_id@).insert(s.session_id@, spec_session_view(s))
                =~= old(self)@.insert(s.session_id@, spec_session_view(s)));
        }
    }

    /// Removes the session under this identifier, if any: what happens when
    /// its tunnel ends, however it ends.
    pub fn remove_session(&mut self, id: &String)
        requires
            old(self).wf(),
        ensures
            final(self).wf(),
            final(self)@ == old(self)@.remove(id@),
    {
        let ghost pre = self.entries@;
        let n = self.entries.len();
        let mut i: usize = 0;
        while i < n
            invariant
                i <= n,
                n == self.entries@.len(),
                self.entries@ == pre,
                old(self).wf(),
                pre == old(self).entries@,
                forall|k: int| 0 <= k < i ==> (#[trigger] pre[k].session_id@) != id@,
            decreases n - i,
        {
            if crate::handshake::str_eq(self.entries[i].session_id.as_str(), id.as_str()) {
                self.entries.remove(i);
                proof {
                    lemma_entries_remove(pre, i as int);
                    assert(final(self)@ == spec_entries_map(pre).remove(pre[i as int].session_id@));
                }
                return ;
            }
            i = i + 1;
        }
        proof {
            lemma_entries_map_key(pre, id@);
            assert(!spec_entries_map(pre).contains_key(id@));
            assert(spec_entries_map(pre).remove(id@) =~= spec_entries_map(pre));
        }
    }

    /// How many sessions are live.
    pub fn session_count(&self) -> (r: usize)
        requires
            self.wf(),
        ensures
            r == self@.dom().len(),
    {
        proof {
            lemma_entries_dom_len(self.entries@);
        }
        self.entries.len()
    }
}

/// Removing the entry at `i` removes exactly its key from the mapping, when
/// identifiers are pairwise distinct.
proof fn lemma_entries_remove(s: Seq<Session>, i: int)
    requires
        0 <= i < s.len(),
        forall|a: int, b: int|
            0 <= a < b < s.len() ==> (#[trigger] s[a].session_id@) != (#[trigger] s[b].session_id@),
    ensures
        spec_entries_map(s.remove(i)) == spec_entries_map(s).remove(s[i].session_id@),
        forall|a: int, b: int|
            0 <= a < b < s.remove(i).len() ==> (#[trigger] s.remove(i)[a].session_id@) != (
            #[trigger] s.remove(i)[b].session_id@),
    decreases s.len(),
{
    let id = s[i].session_id@;
    if i == s.len() - 1 {
        assert(s.remove(i) =~= s.drop_last());
        lemma_entries_map_key(s.drop_last(), id);
        assert(!spec_entries_map(s.drop_last()).contains_key(id));
        assert(spec_entries_map(s).remove(id) =~= spec_entries_map(s.drop_last()));
    } else {
        assert(s.remove(i).last() == s.last());
        assert(s.remove(i).drop_last() =~= s.drop_last().remove(i));
        lemma_entries_remove(s.drop_last(), i);
        assert(spec_entries_map(s.remove(i)) == spec_entries_map(
            s.drop_last(),
        ).remove(id).insert(s.last().session_id@, spec_session_view(s.last())));
        assert(s.last().session_id@ != id);
        assert(spec_entries_map(s.drop_last()).remove(id).insert(
            s.last().session_id@,
            spec_session_view(s.last()),
        ) =~= spec_entries_map(s).remove(id));
    }
}

/// With pairwise distinct identifiers, the mapping has exactly one key per
/// entry.
proof fn lemma_entries_dom_len(s: Seq<Session>)
    requires
        forall|a: int, b: int|
            0 <= a < b < s.len() ==> (#[trigger] s[a].session_id@) != (#[trigger] s[b].session_id@),
    ensures
        spec_entries_map(s).dom().finite(),
        spec_entries_map(s).dom().len() == s.len(),
    decreases s.len(),
{
    if s.len() > 0 {
        lemma_entries_dom_len(s.drop_last());
        lemma_entries_map_key(s.drop_last(), s.last().session_id@);
        assert(!spec_entries_map(s.drop_last()).contains_key(s.last().session_id@));
        assert(spec_entries_map(s).dom() =~= spec_entries_map(s.drop_last()).dom().insert(
            s.last().session_id@,
        ));
        vstd::set::axiom_set_insert_len(
            spec_entries_map(s.drop_last()).dom(),
            s.last().session_id@,
        );
    }
}

} // verus!

verus! {

/// A session's lifetime is bounded by its tunnel's: the identifier is in
/// the table the moment the handshake records it, and gone the moment the
/// tunnel's close removes it, whatever else the table holds.
pub proof fn lemma_session_lifetime(
    m: Map<Seq<char>, SessionView>,
    id: Seq<char>,
    v: SessionView,
)
    ensures
        m.insert(id, v).contains_key(id),
        !m.insert(id, v).remove(id).contains_key(id),
{
}

} // verus!
