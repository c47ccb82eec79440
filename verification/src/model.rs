//! The document graph: every entity of one session's aggregate, the
//! identity allocator that names them, and the graph operations
//! (create, append, resolve, flatten).

use vstd::prelude::*;

use crate::policy::ContentPolicy;

verus! {

broadcast use vstd::std_specs::vec::group_vec_axioms;

/// Internal unique integer naming an entity.
pub type MsgId = u64;

/// Index of a thread-like container in the aggregate's store.
pub type DMId = u64;

/// An embedded program plus its frozen state; executed only under its
/// `ContentPolicy` (see `policy`).
#[derive(Clone, PartialEq, Eq, Debug)]
pub struct DynamicContent {
    pub program_blob: Vec<u8>,
    pub program_state: Vec<u8>,
}

/// A structured contact record, carried as its written text form.
#[derive(Clone, PartialEq, Eq, Debug)]
pub struct Card {
    pub vcard_text: Option<String>,
}

/// A person: contact card, optional profile message, cached image bytes.
#[derive(Clone, PartialEq, Eq, Debug)]
pub struct Person {
    pub id: MsgId,
    pub card: Card,
    pub profile: Option<MsgId>,
    pub cached_profile_image: Vec<u8>,
}

/// The closed set of message payloads.
#[derive(Clone, PartialEq, Eq, Debug)]
pub enum MsgContent {
    /// A hyperlink with a loaded preview; session-local, regenerated on
    /// load rather than persisted.
    Embed(String),
    /// A reference to another message.
    Ref { caption: Option<String>, id: MsgId },
    /// Plain text.
    Txt(String),
    /// Completely unstructured data.
    Data(Vec<u8>),
    /// An image.
    Img(Vec<u8>),
    /// An external link, kept as its text.
    Hyperlink { url: String, text: Option<String> },
    /// An ordered list of other messages.
    Composite(Vec<MsgId>),
    /// An embedded program plus the authorities it was granted.
    Dynamic(DynamicContent, ContentPolicy),
    /// A raw HTML fragment.
    Html(Vec<u8>),
    /// An attached file: its media type as text, and its bytes.
    File(String, Vec<u8>),
    /// A person.
    Person(Person),
    /// A reference to academic work by its registered identifier.
    Doi(String),
    /// An archived file tree.
    Filesystem(Vec<u8>),
    /// A date: the raw input and the parsed timestamp (milliseconds
    /// since the epoch).
    Date(String, i64),
    /// A temporal obligation; representation still open.
    TemporalObligation,
    /// An explicit link to a thread.
    Dm(DMId),
}

/// A timestamped message.
#[derive(Clone, PartialEq, Eq, Debug)]
pub struct Msg {
    pub id: MsgId,
    pub content: MsgContent,
    pub authored_at: i64,
}

/// Where a thread's view is anchored: the top message and an offset
/// into it.
#[derive(Clone, Copy, PartialEq, Eq, Structural, Debug)]
pub struct ScrollAnchor {
    pub top: MsgId,
    pub offset: u64,
}

/// A conversation-like thread: display name, scroll anchor, and its
/// ordered message ids.
#[derive(Clone, PartialEq, Eq, Debug)]
pub struct DM {
    pub name: String,
    pub scroll_state: ScrollAnchor,
    pub msgs_in_sequence: Vec<MsgId>,
}

/// A journal page: title and its ordered message ids.
#[derive(Clone, PartialEq, Eq, Debug)]
pub struct JournalPage {
    pub title: String,
    pub msgs_in_sequence: Vec<MsgId>,
}

/// One minted identifier-to-token mapping.
#[derive(Clone, Copy, PartialEq, Eq, Structural, Debug)]
pub struct ExportEntry {
    pub id: MsgId,
    pub token: u128,
}

/// One archived work, keyed by its registered identifier.
#[derive(Clone, PartialEq, Eq, Debug)]
pub struct DoiEntry {
    pub doi: String,
    pub data: Vec<u8>,
}

/// Graph resolution failures; recoverable at the call site.
#[derive(Clone, Copy, PartialEq, Eq, Structural, Debug)]
pub enum GraphError {
    NotFound,
    CycleDetected,
}

/// Identity allocation failures.
#[derive(Clone, Copy, PartialEq, Eq, Structural, Debug)]
pub enum IdError {
    EntropyExhausted,
}

/// All state of one session: the root aggregate. Owns every entity by
/// value; superseded, not destroyed, by the next fetched snapshot.
pub struct S_lf {
    /// Anything nonce'd is unique; all ids come from here. Persisted so
    /// a restart resumes above the last issued value.
    pub nonce: u64,
    /// Set by the server per connect; sent back with a push so the
    /// server knows which generation the patch is based on.
    pub state_cookie: u64,
    /// Identifiers minted an external token, with their tokens.
    pub export_map: Vec<ExportEntry>,
    pub username: String,
    pub pronouns: (String, String, String),
    pub me: Person,
    /// The message arena; `Composite` and `Ref` name entries here.
    pub msgs: Vec<Msg>,
    pub dm_storage: Vec<DM>,
    pub journal_storage: Vec<JournalPage>,
    pub doi_storage: Vec<DoiEntry>,
}

/// Injectivity of the token map: distinct identifiers, distinct tokens.
pub open spec fn export_map_injective(m: Seq<ExportEntry>) -> bool {
    forall|i: int, j: int|
        0 <= i < j < m.len() ==> m[i].id != m[j].id && m[i].token != m[j].token
}

/// Whether `id` was minted a token.
pub open spec fn has_token(m: Seq<ExportEntry>, id: MsgId) -> bool {
    exists|i: int| 0 <= i < m.len() && m[i].id == id
}

/// The token minted for `id` (unique under injectivity).
pub open spec fn token_of(m: Seq<ExportEntry>, id: MsgId) -> u128 {
    m[choose|i: int| 0 <= i < m.len() && m[i].id == id].token
}

/// Whether `t` is already some identifier's token.
pub open spec fn token_in(m: Seq<ExportEntry>, t: u128) -> bool {
    exists|i: int| 0 <= i < m.len() && m[i].token == t
}

/// What one `gensym` call does to the aggregate, as its contract states
/// it: the result is one above the counter, which now holds the result.
pub open spec fn gensym_step(pre: S_lf, post: S_lf, r: u64) -> bool {
    r == pre.nonce + 1 && post.nonce == r
}

/// Identifiers over a whole run: for any chain of aggregates linked by
/// `gensym` calls, the issued values are strictly increasing, hence
/// pairwise distinct — no identifier is ever reused after issuance.
pub proof fn lemma_allocate_sequence(states: Seq<S_lf>, results: Seq<u64>)
    requires
        states.len() == results.len() + 1,
        forall|k: int|
            0 <= k < results.len() ==> #[trigger] gensym_step(states[k], states[k + 1], results[k]),
    ensures
        forall|i: int, j: int| 0 <= i < j < results.len() ==> results[i] < results[j],
        forall|i: int, j: int| 0 <= i < j < results.len() ==> results[i] != results[j],
{
    assert forall|i: int, j: int| 0 <= i < j < results.len() implies results[i] < results[j] by {
        lemma_allocate_chain(states, results, i, j);
    }
}

/// The issued value grows along the chain: induction from `i` to `j`.
proof fn lemma_allocate_chain(states: Seq<S_lf>, results: Seq<u64>, i: int, j: int)
    requires
        states.len() == results.len() + 1,
        forall|k: int|
            0 <= k < results.len() ==> #[trigger] gensym_step(states[k], states[k + 1], results[k]),
        0 <= i < j < results.len(),
    ensures
        results[i] < results[j],
    decreases j - i,
{
    assert(gensym_step(states[j], states[j + 1], results[j]));
    if j == i + 1 {
        assert(gensym_step(states[i], states[i + 1], results[i]));
    } else {
        lemma_allocate_chain(states, results, i, j - 1);
        let k = j - 1;
        assert(gensym_step(states[k], states[k + 1], results[k]));
    }
}

/// Under injectivity, distinct identifiers never share a token: the
/// token map never collides.
pub proof fn lemma_tokens_never_collide(m: Seq<ExportEntry>, i1: MsgId, i2: MsgId)
    requires
        export_map_injective(m),
        has_token(m, i1),
        has_token(m, i2),
        i1 != i2,
    ensures
        token_of(m, i1) != token_of(m, i2),
{
    let w1 = choose|i: int| 0 <= i < m.len() && m[i].id == i1;
    let w2 = choose|i: int| 0 <= i < m.len() && m[i].id == i2;
    assert(0 <= w1 < m.len() && m[w1].id == i1);
    assert(0 <= w2 < m.len() && m[w2].id == i2);
    if w1 < w2 {
        assert(m[w1].token != m[w2].token);
    } else {
        assert(m[w2].token != m[w1].token);
    }
}

/// The first index of the message with `id`, or -1 when none has it.
pub open spec fn find_msg(msgs: Seq<Msg>, id: MsgId) -> int
    decreases msgs.len(),
{
    if msgs.len() == 0 {
        -1
    } else if msgs[0].id == id {
        0
    } else if find_msg(msgs.drop_first(), id) == -1 {
        -1
    } else {
        find_msg(msgs.drop_first(), id) + 1
    }
}

/// `find_msg` finds the first message with the id, -1 exactly when absent.
pub proof fn lemma_find_msg(msgs: Seq<Msg>, id: MsgId)
    ensures
        find_msg(msgs, id) == -1 ==> forall|j: int| 0 <= j < msgs.len() ==> msgs[j].id != id,
        find_msg(msgs, id) != -1 ==> 0 <= find_msg(msgs, id) < msgs.len() && msgs[find_msg(
            msgs,
            id,
        )].id == id && (forall|x: int| 0 <= x < find_msg(msgs, id) ==> msgs[x].id != id),
    decreases msgs.len(),
{
    if msgs.len() == 0 {
    } else if msgs[0].id == id {
    } else {
        lemma_find_msg(msgs.drop_first(), id);
        let r = find_msg(msgs.drop_first(), id);
        if r == -1 {
            assert(forall|j: int|
                1 <= j < msgs.len() ==> msgs[j].id == msgs.drop_first()[j - 1].id);
        } else {
            assert(msgs[r + 1].id == msgs.drop_first()[r].id);
            assert(forall|x: int| 1 <= x < r + 1 ==> msgs[x].id == msgs.drop_first()[x - 1].id);
        }
    }
}

/// `post` is `pre` with `m` appended to the message sequence of the
/// thread at `c`, everything else unchanged.
pub open spec fn dm_appended(pre: Seq<DM>, post: Seq<DM>, c: int, m: MsgId) -> bool {
    &&& post.len() == pre.len()
    &&& post[c].name == pre[c].name
    &&& post[c].scroll_state == pre[c].scroll_state
    &&& post[c].msgs_in_sequence@ == pre[c].msgs_in_sequence@.push(m)
    &&& forall|i: int| 0 <= i < pre.len() && i != c ==> post[i] == pre[i]
}

impl S_lf {
    /// The aggregate's invariant: the token map is injective, no stored
    /// message carries an id above the nonce counter (so a fresh
    /// allocation never collides with a stored entity), and the archive
    /// of works has no repeated key.
    pub open spec fn inv(self) -> bool {
        &&& export_map_injective(self.export_map@)
        &&& forall|i: int| 0 <= i < self.msgs@.len() ==> self.msgs@[i].id <= self.nonce
        &&& forall|i: int, j: int|
            0 <= i < j < self.doi_storage@.len() ==> self.doi_storage@[i].doi@
                != self.doi_storage@[j].doi@
    }

    /// Issues the next identifier: one above the stored counter, which
    /// it advances. Successive calls return strictly increasing,
    /// pairwise distinct values, and under `inv` the result collides
    /// with no stored message id.
    pub fn gensym(&mut self) -> (r: u64)
        requires
            old(self).nonce < u64::MAX,
        ensures
            r == old(self).nonce + 1,
            *final(self) == (S_lf { nonce: r, ..*old(self) }),
            old(self).inv() ==> final(self).inv(),
            old(self).inv() ==> forall|i: int|
                0 <= i < old(self).msgs@.len() ==> old(self).msgs@[i].id != r,
    {
        let old_nonce = self.nonce;
        let new = old_nonce + 1;
        self.nonce = new;
        new
    }

    /// Allocates an id, wraps the content and the current time into a
    /// message, stores it, and returns the id. The timestamp is read
    /// from the clock, so nothing is promised of it.
    pub fn create(&mut self, content: MsgContent) -> (r: u64)
        requires
            old(self).nonce < u64::MAX,
            old(self).inv(),
        ensures
            r == old(self).nonce + 1,
            final(self).nonce == r,
            final(self).inv(),
            final(self).msgs@.len() == old(self).msgs@.len() + 1,
            final(self).msgs@.last().id == r,
            final(self).msgs@.last().content == content,
            final(self).msgs@.drop_last() == old(self).msgs@,
            forall|i: int| 0 <= i < old(self).msgs@.len() ==> old(self).msgs@[i].id != r,
            final(self).state_cookie == old(self).state_cookie,
            final(self).export_map == old(self).export_map,
            final(self).username == old(self).username,
            final(self).pronouns == old(self).pronouns,
            final(self).me == old(self).me,
            final(self).dm_storage == old(self).dm_storage,
            final(self).journal_storage == old(self).journal_storage,
            final(self).doi_storage == old(self).doi_storage,
    {
        let id = self.gensym();
        let at = now_millis();
        self.msgs.push(Msg { id, content, authored_at: at });
        proof {
            assert(final(self).msgs@.drop_last() =~= old(self).msgs@);
        }
        id
    }

    /// Appends a message id to the named container's ordered sequence.
    /// Fails with `NotFound` iff the container id names no thread; the
    /// message id itself is not validated (dangling references are
    /// tolerated until resolution).
    pub fn append(&mut self, container: DMId, msg: MsgId) -> (r: Result<(), GraphError>)
        ensures
            container < old(self).dm_storage@.len() ==> r is Ok && dm_appended(
                old(self).dm_storage@,
                final(self).dm_storage@,
                container as int,
                msg,
            ),
            container >= old(self).dm_storage@.len() ==> (r == Err::<(), GraphError>(
                GraphError::NotFound,
            ) && *final(self) == *old(self)),
            final(self).nonce == old(self).nonce,
            final(self).msgs == old(self).msgs,
            final(self).export_map == old(self).export_map,
            final(self).state_cookie == old(self).state_cookie,
            final(self).username == old(self).username,
            final(self).pronouns == old(self).pronouns,
            final(self).me == old(self).me,
            final(self).journal_storage == old(self).journal_storage,
            final(self).doi_storage == old(self).doi_storage,
            old(self).inv() ==> final(self).inv(),
    {
        let n = self.dm_storage.len();
        if container >= n as u64 {
            return Err(GraphError::NotFound);
        }
        let ix = container as usize;
        let ghost pre = self.dm_storage@;
        let mut dm = self.dm_storage.remove(ix);
        dm.msgs_in_sequence.push(msg);
        self.dm_storage.insert(ix, dm);
        proof {
            assert(self.dm_storage@ =~= pre.update(ix as int, self.dm_storage@[ix as int]));
        }
        Ok(())
    }

    /// Resolves an id to its message; fails with `NotFound` iff the id
    /// names no stored message.
    #[verifier::loop_isolation(false)]
    pub fn resolve(&self, id: MsgId) -> (r: Result<&Msg, GraphError>)
        ensures
            find_msg(self.msgs@, id) != -1 ==> (r is Ok && *r->Ok_0 == self.msgs@[find_msg(
                self.msgs@,
                id,
            )]),
            find_msg(self.msgs@, id) == -1 ==> r == Err::<&Msg, GraphError>(GraphError::NotFound),
    {
        proof {
            lemma_find_msg(self.msgs@, id);
        }
        let n = self.msgs.len();
        let mut j: usize = 0;
        while j < n
            invariant
                n == self.msgs@.len(),
                j <= n,
                forall|x: int| 0 <= x < j ==> self.msgs@[x].id != id,
            decreases n - j,
        {
            if self.msgs[j].id == id {
                proof {
                    if find_msg(self.msgs@, id) == -1 {
                        assert(self.msgs@[j as int].id != id);
                    }
                    let f = find_msg(self.msgs@, id);
                    if f < j as int {
                        assert(self.msgs@[f].id != id);
                    }
                    if f > j as int {
                        assert(self.msgs@[j as int].id != id);
                    }
                }
                return Ok(&self.msgs[j]);
            }
            j += 1;
        }
        proof {
            if find_msg(self.msgs@, id) != -1 {
                assert(self.msgs@[find_msg(self.msgs@, id)].id != id);
            }
        }
        Err(GraphError::NotFound)
    }

    /// Decides the aggregate's invariant, so that a caller holding an
    /// aggregate of unknown provenance (a freshly decoded snapshot) can
    /// establish it before editing: the result equals `inv()` exactly.
    #[verifier::loop_isolation(false)]
    pub fn validate(&self) -> (r: bool)
        ensures
            r == self.inv(),
    {
        let n = self.export_map.len();
        let mut i: usize = 0;
        while i < n
            invariant
                n == self.export_map@.len(),
                i <= n,
                forall|x: int, y: int|
                    0 <= x < i && x < y < n ==> self.export_map@[x].id != self.export_map@[y].id
                        && self.export_map@[x].token != self.export_map@[y].token,
            decreases n - i,
        {
            let mut j: usize = i + 1;
            while j < n
                invariant
                    i < n,
                    i + 1 <= j <= n,
                    forall|y: int|
                        i < y < j ==> self.export_map@[i as int].id != self.export_map@[y].id
                            && self.export_map@[i as int].token != self.export_map@[y].token,
                decreases n - j,
            {
                if self.export_map[j].id == self.export_map[i].id || self.export_map[j].token
                    == self.export_map[i].token {
                    assert(!export_map_injective(self.export_map@));
                    return false;
                }
                j += 1;
            }
            i += 1;
        }
        assert(export_map_injective(self.export_map@));

        let m = self.msgs.len();
        let mut k: usize = 0;
        while k < m
            invariant
                m == self.msgs@.len(),
                k <= m,
                forall|x: int| 0 <= x < k ==> self.msgs@[x].id <= self.nonce,
            decreases m - k,
        {
            if self.msgs[k].id > self.nonce {
                assert(self.msgs@[k as int].id > self.nonce);
                return false;
            }
            k += 1;
        }

        let d = self.doi_storage.len();
        let mut a: usize = 0;
        while a < d
            invariant
                d == self.doi_storage@.len(),
                a <= d,
                forall|x: int, y: int|
                    0 <= x < a && x < y < d ==> self.doi_storage@[x].doi@
                        != self.doi_storage@[y].doi@,
            decreases d - a,
        {
            let mut b: usize = a + 1;
            while b < d
                invariant
                    a < d,
                    a + 1 <= b <= d,
                    forall|y: int|
                        a < y < b ==> self.doi_storage@[a as int].doi@ != self.doi_storage@[y].doi@,
                decreases d - b,
            {
                if self.doi_storage[b].doi == self.doi_storage[a].doi {
                    assert(self.doi_storage@[a as int].doi@ == self.doi_storage@[b as int].doi@);
                    return false;
                }
                b += 1;
            }
            a += 1;
        }
        true
    }

    /// Returns `id`'s stable external token. A token already minted is
    /// returned unchanged and the aggregate is untouched; otherwise a
    /// fresh random token — one that no other identifier holds — is
    /// minted, recorded, and returned. Failure — only possible when the
    /// entropy source keeps colliding (treated as exhaustion) — can
    /// happen only for an id not yet minted, and leaves the map
    /// untouched; an id that holds a token is always answered.
    /// Injectivity of the map is preserved either way.
    #[verifier::loop_isolation(false)]
    pub fn export_token(&mut self, id: MsgId) -> (r: Result<u128, IdError>)
        requires
            old(self).inv(),
        ensures
            has_token(old(self).export_map@, id) ==> r is Ok,
            final(self).inv(),
            *final(self) == (S_lf { export_map: final(self).export_map, ..*old(self) }),
            (match r {
                Ok(t) => {
                    &&& has_token(final(self).export_map@, id)
                    &&& token_of(final(self).export_map@, id) == t
                    &&& (has_token(old(self).export_map@, id) ==> final(self).export_map == old(
                        self,
                    ).export_map && t == token_of(old(self).export_map@, id))
                    &&& (!has_token(old(self).export_map@, id) ==> final(self).export_map@ == old(
                        self,
                    ).export_map@.push(ExportEntry { id, token: t }) && !token_in(
                        old(self).export_map@,
                        t,
                    ))
                },
                Err(_) => final(self).export_map == old(self).export_map,
            }),
    {
        let n = self.export_map.len();
        let mut j: usize = 0;
        while j < n
            invariant
                n == self.export_map@.len(),
                j <= n,
                forall|x: int| 0 <= x < j ==> self.export_map@[x].id != id,
            decreases n - j,
        {
            if self.export_map[j].id == id {
                proof {
                    assert(self.export_map@[j as int].id == id);
                    assert(has_token(self.export_map@, id));
                    let w = choose|i: int|
                        0 <= i < self.export_map@.len() && self.export_map@[i].id == id;
                    assert(0 <= w < self.export_map@.len() && self.export_map@[w].id == id);
                    if w != j as int {
                        assert(self.export_map@[w].id != self.export_map@[j as int].id);
                        assert(false);
                    }
                    assert(token_of(self.export_map@, id) == self.export_map@[j as int].token);
                }
                return Ok(self.export_map[j].token);
            }
            j += 1;
        }
        let mut attempts: usize = 0;
        while attempts < 64
            invariant
                !has_token(self.export_map@, id),
                *self == *old(self),
            decreases 64 - attempts,
        {
            let t = random_token();
            let mut hit = false;
            let mut x: usize = 0;
            let m = self.export_map.len();
            while x < m && !hit
                invariant
                    m == self.export_map@.len(),
                    x <= m,
                    hit ==> token_in(self.export_map@, t),
                    !hit ==> forall|y: int| 0 <= y < x ==> self.export_map@[y].token != t,
                decreases m - x,
            {
                if self.export_map[x].token == t {
                    hit = true;
                    proof {
                        assert(self.export_map@[x as int].token == t);
                    }
                }
                x += 1;
            }
            if !hit {
                let ghost pre = self.export_map@;
                proof {
                    assert(!token_in(pre, t));
                    assert(!has_token(pre, id));
                }
                self.export_map.push(ExportEntry { id, token: t });
                proof {
                    let post = self.export_map@;
                    assert(post.len() == pre.len() + 1);
                    assert(post[pre.len() as int] == ExportEntry { id, token: t });
                    assert(forall|i: int| 0 <= i < pre.len() ==> post[i] == pre[i]);
                    assert(export_map_injective(post)) by {
                        assert(forall|i: int, j2: int|
                            0 <= i < j2 < post.len() && j2 < pre.len() ==> post[i].id
                                != post[j2].id && post[i].token != post[j2].token);
                        assert(forall|i: int|
                            0 <= i < pre.len() ==> post[i].id != id && post[i].token != t);
                    }
                    assert(post[pre.len() as int].id == id);
                    assert(has_token(post, id));
                    let w = choose|i: int| 0 <= i < post.len() && post[i].id == id;
                    assert(0 <= w < post.len() && post[w].id == id);
                    if w != pre.len() as int {
                        assert(post[w].id != id);
                        assert(false);
                    }
                    assert(token_of(post, id) == t);
                }
                return Ok(t);
            }
            attempts += 1;
        }
        Err(IdError::EntropyExhausted)
    }
}

/// The messages a sequence of references dereferences to.
pub open spec fn deref_seq(s: Seq<&Msg>) -> Seq<Msg> {
    Seq::new(s.len(), |i: int| *s[i])
}

/// Recursive expansion of a message: `Composite` and `Ref` are expanded,
/// every other payload yields the message itself. `path` carries the ids
/// on the current expansion path: revisiting one fails with
/// `CycleDetected`; an id naming no message fails with `NotFound`. The
/// fuel bounds the depth; the executable `flatten` supplies one more
/// than the arena's size, which the path discipline can never exhaust.
pub open spec fn flatten_s(msgs: Seq<Msg>, id: MsgId, path: Seq<MsgId>, fuel: nat) -> Result<
    Seq<Msg>,
    GraphError,
>
    decreases fuel, 0int,
{
    if path.contains(id) {
        Err(GraphError::CycleDetected)
    } else if fuel == 0 {
        Err(GraphError::CycleDetected)
    } else if find_msg(msgs, id) == -1 {
        Err(GraphError::NotFound)
    } else {
        let m = msgs[find_msg(msgs, id)];
        match m.content {
            MsgContent::Composite(kids) => flatten_list(
                msgs,
                kids@,
                path.push(id),
                (fuel - 1) as nat,
            ),
            MsgContent::Ref { caption: _, id: t } => flatten_s(
                msgs,
                t,
                path.push(id),
                (fuel - 1) as nat,
            ),
            _ => Ok(seq![m]),
        }
    }
}

/// Expansion of a list of children, in order, concatenated; the first
/// failure fails the whole list.
pub open spec fn flatten_list(
    msgs: Seq<Msg>,
    kids: Seq<MsgId>,
    path: Seq<MsgId>,
    fuel: nat,
) -> Result<Seq<Msg>, GraphError>
    decreases fuel, kids.len() + 1,
{
    if kids.len() == 0 {
        Ok(Seq::empty())
    } else {
        match flatten_s(msgs, kids[0], path, fuel) {
            Ok(first) => match flatten_list(msgs, kids.drop_first(), path, fuel) {
                Ok(rest) => Ok(first + rest),
                Err(e) => Err(e),
            },
            Err(e) => Err(e),
        }
    }
}

/// A list with a failing child fails as a whole.
proof fn lemma_flatten_list_err(msgs: Seq<Msg>, kids: Seq<MsgId>, path: Seq<MsgId>, fuel: nat, w: int)
    requires
        0 <= w < kids.len(),
        flatten_s(msgs, kids[w], path, fuel) is Err,
    ensures
        flatten_list(msgs, kids, path, fuel) is Err,
    decreases w,
{
    if flatten_s(msgs, kids[0], path, fuel) is Err {
    } else {
        assert(w != 0);
        lemma_flatten_list_err(msgs, kids.drop_first(), path, fuel, w - 1);
    }
}

/// The visited-path discipline, in general: expansion that reaches an
/// id already on the current expansion path — however many `Composite`
/// or `Ref` links led back to it — fails with `CycleDetected`, whatever
/// the fuel; and expansion always terminates (`flatten`'s own
/// termination is checked).
pub proof fn lemma_flatten_revisit_cycle(msgs: Seq<Msg>, id: MsgId, path: Seq<MsgId>, fuel: nat)
    requires
        path.contains(id),
    ensures
        flatten_s(msgs, id, path, fuel) == Err::<Seq<Msg>, GraphError>(GraphError::CycleDetected),
{
}

/// A `Composite` containing itself (directly) never expands: the result
/// is a failure, and where the self-reference is the first child the
/// failure is `CycleDetected`.
pub proof fn lemma_flatten_direct_cycle(msgs: Seq<Msg>, id: MsgId, fuel: nat)
    requires
        fuel >= 1,
        find_msg(msgs, id) != -1,
        msgs[find_msg(msgs, id)].content is Composite,
        msgs[find_msg(msgs, id)].content->Composite_0@.contains(id),
    ensures
        flatten_s(msgs, id, Seq::empty(), fuel) is Err,
        msgs[find_msg(msgs, id)].content->Composite_0@.first() == id ==> flatten_s(
            msgs,
            id,
            Seq::empty(),
            fuel,
        ) == Err::<Seq<Msg>, GraphError>(GraphError::CycleDetected),
    decreases fuel,
{
    let empty_path = Seq::<MsgId>::empty();
    assert(!empty_path.contains(id));
    let f = find_msg(msgs, id);
    let kids = msgs[f].content->Composite_0@;
    let p2 = empty_path.push(id);
    assert(p2[0] == id);
    assert(p2.contains(id));
    let w = choose|i: int| 0 <= i < kids.len() && kids[i] == id;
    assert(kids[w] == id);
    assert(flatten_s(msgs, kids[w], p2, (fuel - 1) as nat) == Err::<Seq<Msg>, GraphError>(
        GraphError::CycleDetected,
    ));
    lemma_flatten_list_err(msgs, kids, p2, (fuel - 1) as nat, w);
    if kids.first() == id {
        assert(flatten_list(msgs, kids, p2, (fuel - 1) as nat) == Err::<Seq<Msg>, GraphError>(
            GraphError::CycleDetected,
        ));
    }
}

impl S_lf {
    /// Produces the finite expansion of the message named `id`:
    /// `Composite` and `Ref` payloads are recursively expanded with an
    /// explicit visited path, so a self- or mutually-referential graph
    /// fails with `CycleDetected` instead of looping, and a dangling
    /// reference fails with `NotFound` — exactly as the model
    /// `flatten_s` says.
    pub fn flatten(&self, id: MsgId) -> (r: Result<Vec<&Msg>, GraphError>)
        requires
            self.msgs@.len() < usize::MAX,
        ensures
            (match flatten_s(self.msgs@, id, Seq::empty(), (self.msgs@.len() + 1) as nat) {
                Ok(s) => r is Ok && deref_seq(r->Ok_0@) == s,
                Err(e) => r == Err::<Vec<&Msg>, GraphError>(e),
            }),
    {
        let path: Vec<MsgId> = Vec::new();
        let fuel = self.msgs.len() + 1;
        proof {
            assert(path@ =~= Seq::<MsgId>::empty());
        }
        self.flatten_rec(id, &path, fuel)
    }

    /// One step of `flatten`: expansion below `id` with the visited
    /// `path` and the remaining `fuel`.
    #[verifier::loop_isolation(false)]
    fn flatten_rec<'a>(&'a self, id: MsgId, path: &Vec<MsgId>, fuel: usize) -> (r: Result<
        Vec<&'a Msg>,
        GraphError,
    >)
        ensures
            (match flatten_s(self.msgs@, id, path@, fuel as nat) {
                Ok(s) => r is Ok && deref_seq(r->Ok_0@) == s,
                Err(e) => r == Err::<Vec<&'a Msg>, GraphError>(e),
            }),
        decreases fuel,
    {
        let pn = path.len();
        let mut c: usize = 0;
        let mut seen = false;
        while c < pn && !seen
            invariant
                c <= pn,
                seen ==> path@.contains(id),
                !seen ==> forall|x: int| 0 <= x < c ==> path@[x] != id,
            decreases pn - c,
        {
            if path[c] == id {
                seen = true;
                proof {
                    assert(path@[c as int] == id);
                }
            }
            c += 1;
        }
        if seen {
            return Err(GraphError::CycleDetected);
        }
        proof {
            assert(!path@.contains(id));
        }
        if fuel == 0 {
            return Err(GraphError::CycleDetected);
        }
        proof {
            lemma_find_msg(self.msgs@, id);
        }
        match self.resolve(id) {
            Err(_) => Err(GraphError::NotFound),
            Ok(m) => {
                match &m.content {
                    MsgContent::Composite(kids) => {
                        let mut p2: Vec<MsgId> = Vec::new();
                        let mut c2: usize = 0;
                        while c2 < pn
                            invariant
                                c2 <= pn,
                                p2@ == path@.subrange(0, c2 as int),
                            decreases pn - c2,
                        {
                            p2.push(path[c2]);
                            proof {
                                assert(p2@ =~= path@.subrange(0, c2 + 1 as int));
                            }
                            c2 += 1;
                        }
                        proof {
                            assert(p2@ =~= path@);
                        }
                        p2.push(id);
                        let ghost pp = path@.push(id);
                        let ghost f2 = (fuel - 1) as nat;
                        let ghost kl = kids@;
                        let kn = kids.len();
                        let mut out: Vec<&Msg> = Vec::new();
                        let mut i: usize = 0;
                        proof {
                            assert(kl.skip(0) =~= kl);
                            assert(deref_seq(out@) + Seq::<Msg>::empty() =~= deref_seq(out@));
                        }
                        while i < kn
                            invariant
                                i <= kn,
                                kn == kl.len(),
                                p2@ == pp,
                                (match flatten_list(self.msgs@, kl.skip(i as int), pp, f2) {
                                    Ok(rest) => flatten_list(self.msgs@, kl, pp, f2) == Ok::<
                                        Seq<Msg>,
                                        GraphError,
                                    >(deref_seq(out@) + rest),
                                    Err(e) => flatten_list(self.msgs@, kl, pp, f2) == Err::<
                                        Seq<Msg>,
                                        GraphError,
                                    >(e),
                                }),
                            decreases kn - i,
                        {
                            proof {
                                assert(kl.skip(i as int)[0] == kl[i as int]);
                                assert(kl.skip(i as int).drop_first() =~= kl.skip(i + 1 as int));
                            }
                            match self.flatten_rec(kids[i], &p2, fuel - 1) {
                                Ok(mut sub) => {
                                    let ghost out_pre = out@;
                                    let ghost sub_pre = sub@;
                                    out.append(&mut sub);
                                    proof {
                                        assert(deref_seq(out@) =~= deref_seq(out_pre) + deref_seq(
                                            sub_pre,
                                        ));
                                        assert(flatten_s(self.msgs@, kl[i as int], pp, f2) == Ok::<
                                            Seq<Msg>,
                                            GraphError,
                                        >(deref_seq(sub_pre)));
                                        let tail = flatten_list(
                                            self.msgs@,
                                            kl.skip(i + 1 as int),
                                            pp,
                                            f2,
                                        );
                                        if tail is Ok {
                                            let rest = tail->Ok_0;
                                            assert(flatten_list(self.msgs@, kl.skip(i as int), pp, f2)
                                                == Ok::<Seq<Msg>, GraphError>(
                                                deref_seq(sub_pre) + rest,
                                            ));
                                            assert(deref_seq(out_pre) + (deref_seq(sub_pre) + rest)
                                                =~= deref_seq(out@) + rest);
                                        }
                                    }
                                },
                                Err(e) => {
                                    return Err(e);
                                },
                            }
                            i += 1;
                        }
                        proof {
                            assert(kl.skip(kn as int) =~= Seq::<MsgId>::empty());
                            assert(deref_seq(out@) + Seq::<Msg>::empty() =~= deref_seq(out@));
                        }
                        Ok(out)
                    },
                    MsgContent::Ref { caption: _, id: t } => {
                        let mut p2: Vec<MsgId> = Vec::new();
                        let mut c2: usize = 0;
                        while c2 < pn
                            invariant
                                c2 <= pn,
                                p2@ == path@.subrange(0, c2 as int),
                            decreases pn - c2,
                        {
                            p2.push(path[c2]);
                            proof {
                                assert(p2@ =~= path@.subrange(0, c2 + 1 as int));
                            }
                            c2 += 1;
                        }
                        proof {
                            assert(p2@ =~= path@);
                        }
                        p2.push(id);
                        self.flatten_rec(*t, &p2, fuel - 1)
                    },
                    _ => {
                        let mut v: Vec<&Msg> = Vec::new();
                        v.push(m);
                        proof {
                            assert(deref_seq(v@) =~= seq![self.msgs@[find_msg(self.msgs@, id)]]);
                        }
                        Ok(v)
                    },
                }
            },
        }
    }
}

/// Relies on uuid::Uuid::new_v4 (converted with Uuid::as_u128): a fresh
/// version-4 UUID from the process's entropy source. The value depends
/// on that source, so nothing is assumed of it.
#[verifier::external_body]
fn random_token() -> (r: u128) {
    uuid::Uuid::new_v4().as_u128()
}

/// Relies on chrono::Utc::now (read with DateTime::timestamp_millis):
/// the current time in milliseconds since the epoch. The value depends
/// on the clock, so nothing is assumed of it.
#[verifier::external_body]
fn now_millis() -> (r: i64) {
    chrono::Utc::now().timestamp_millis()
}

} // verus!
