//! The tix store: an append-only event log (authoritative) and the derived
//! state that replaying it yields.
//!
//! Every mutation appends exactly one record to the log and applies it to
//! the derived state, so the derived state is always `replay(log)`: the
//! invariant behind self-healing reimport, reopen recovery and
//! export/import round trips. Reading and writing `issues.jsonl` itself is
//! the caller's side of the boundary: the store hands out the records it
//! appended and takes the records read back.

pub mod backlog;
pub mod cache;
pub mod fts;
pub mod laws;
pub mod log;
pub mod order;

use vstd::prelude::*;

use crate::comment::{Comment, CommentView};
use crate::comment_id::CommentId;
use crate::dep::{Dep, DepView};
use crate::dep_kind::DepKind;
use crate::hold::{Hold, HoldView, hold_kind_wire};
use crate::ids::{
    TS_MOD, UlidGenerator, UlidGeneratorView, last_ulid, next_state, short_hash, short_hash_spec,
};
use crate::issue::{Issue, IssueUpdate, IssueView, NewIssue, copy_strings, strings_view, strs_view};
use crate::issue_id::{IssueId, ParseIssueIdError, check_issue_id, valid_issue_id};
use crate::paths::{is_absolute, join, joined, parent_dir_name, parent_name, path_is_absolute};
use crate::status::{Status, status_wire};
use crate::text::{chars_eq, chars_of, decimal, i64_decimal, owned, string_of};
use cache::{
    Cache, CacheView, IssueOrder, Resolution, Resolved, comment_on, comments_view, dedup, deps_view,
    edge_touches, find_issue, first_from, issues_view, list_pred, opt_str_view, ready_pred,
    released_state, replay, resolve_spec, rows_by_rowid, search_doc, search_docs, sort_comments,
    sort_deps, sort_issues,
};
use fts::{fts_docs, fts_ranked, fts_table};
use log::{
    CommentRecord, CommentRecordView, DeleteRecord, DeleteRecordView, DepRecord, DepRecordView,
    HoldRecord, HoldRecordView, IssueRecord, IssueRecordView, Record, RecordView, active_state,
    records_view, removed_state,
};

verus! {

/// Filters for [`Store::list`]; `None` matches everything.
#[derive(Debug, Clone, Copy)]
pub struct ListFilter<'a> {
    pub status: Option<Status>,
    pub assignee: Option<&'a str>,
    pub tag: Option<&'a str>,
}

impl<'a> Default for ListFilter<'a> {
    fn default() -> (r: Self)
        ensures
            r.status is None,
            r.assignee is None,
            r.tag is None,
    {
        ListFilter { status: None, assignee: None, tag: None }
    }
}

/// Store-layer failures.
#[derive(Debug)]
pub enum Error {
    /// No `.tix` store directory could be discovered.
    StoreNotFound,
    /// `input` matched no issue id, exactly or as a unique prefix.
    IssueNotFound { input: String },
    /// `input` is a prefix of more than one issue id.
    IssueIdAmbiguous { input: String },
    /// A new issue's id already exists.
    IssueIdExists { id: IssueId },
    /// A new issue's id is not an acceptable issue id.
    InvalidIssueId { input: String, reason: ParseIssueIdError },
    /// An issue cannot block or relate to itself.
    SelfDependency,
    /// The cache stayed locked past the retry budget; retrying is safe.
    DatabaseBusy,
    /// A cache operation failed.
    Sqlite { message: String },
    /// Reading or writing the store failed.
    Io { message: String },
}

/// The plain-value model of a [`Store`]: its directory, its id prefix, its
/// event log and its ULID generator. The derived state is `replay(log)`.
pub struct StoreView {
    pub dir: Seq<char>,
    pub prefix: Seq<char>,
    pub log: Seq<RecordView>,
    pub ulids: UlidGeneratorView,
}

/// An open store.
pub struct Store {
    dir: String,
    prefix: String,
    log: Vec<Record>,
    cache: Cache,
    ulids: UlidGenerator,
}

impl View for Store {
    type V = StoreView;

    closed spec fn view(&self) -> StoreView {
        StoreView {
            dir: self.dir@,
            prefix: self.prefix@,
            log: records_view(self.log@),
            ulids: self.ulids@,
        }
    }
}

/// The derived state of a store.
pub open spec fn state(s: StoreView) -> CacheView {
    replay(s.log)
}

/// The prefix a store uses: the one stored with its cache if any, else the
/// name of the store directory's parent, else `"do"`.
pub open spec fn default_prefix(stored: Option<Seq<char>>, dir_name: Option<Seq<char>>) -> Seq<
    char,
> {
    match stored {
        Some(p) => p,
        None => match dir_name {
            Some(n) => n,
            None => "do"@,
        },
    }
}

/// The predicate "is true".
pub open spec fn holds() -> spec_fn(bool) -> bool {
    |b: bool| b
}

/// Where a store is found: a `TIX_STORE` value wins (an absolute path as
/// is, a relative one inside the starting directory); otherwise the `.tix`
/// directory of the nearest of `ancestors` (the starting directory first,
/// then each parent) that has one.
pub open spec fn discovered(
    ancestors: Seq<Seq<char>>,
    has_store: Seq<bool>,
    env: Option<Seq<char>>,
) -> Option<Seq<char>> {
    match env {
        Some(v) => Some(
            if is_absolute(v) || ancestors.len() == 0 {
                v
            } else {
                joined(ancestors[0], v)
            },
        ),
        None => match first_from(has_store, holds(), 0) {
            Some(i) => Some(joined(ancestors[i], ".tix"@)),
            None => None,
        },
    }
}

/// Resolve the store directory from the starting directory's `ancestors`
/// (itself first, then each parent) and, for each, whether it holds a
/// `.tix` directory. [`Error::StoreNotFound`] when nothing is found.
pub fn discover(ancestors: &Vec<String>, has_store: &Vec<bool>, tix_store_env: Option<&str>) -> (r:
    Result<String, Error>)
    requires
        ancestors.len() == has_store.len(),
    ensures
        match discovered(strings_view(ancestors@), has_store@, opt_str_view(tix_store_env)) {
            Some(p) => r matches Ok(s) && s@ == p,
            None => r matches Err(Error::StoreNotFound),
        },
{
    match tix_store_env {
        Some(v) => {
            if path_is_absolute(v) || ancestors.len() == 0 {
                Ok(owned(v))
            } else {
                Ok(join(ancestors[0].as_str(), v))
            }
        },
        None => {
            let ghost p = holds();
            let mut i: usize = 0;
            while i < has_store.len()
                invariant
                    i <= has_store.len(),
                    ancestors.len() == has_store.len(),
                    p == holds(),
                    tix_store_env is None,
                    first_from(has_store@, p, 0) == first_from(has_store@, p, i as int),
                decreases has_store.len() - i,
            {
                assert(p(has_store@[i as int]) == has_store@[i as int]);
                if has_store[i] {
                    assert(strings_view(ancestors@)[i as int] == ancestors@[i as int]@);
                    assert(first_from(has_store@, p, i as int) == Some(i as int));
                    return Ok(join(ancestors[i].as_str(), ".tix"));
                }
                i = i + 1;
            }
            Err(Error::StoreNotFound)
        },
    }
}

/// `<prefix>-<short_hash(title + now_ms)>`.
pub open spec fn generated_id(prefix: Seq<char>, title: Seq<char>, now: i64) -> Seq<char> {
    prefix + seq!['-'] + short_hash_spec(vstd::utf8::encode_utf8(title + decimal(now as int)))
}

/// The id a new issue gets: the caller's choice, else a generated one.
pub open spec fn candidate_id(prefix: Seq<char>, new: NewIssue, now: i64) -> Seq<char> {
    match new.id {
        Some(i) => i@,
        None => generated_id(prefix, new.title@, now),
    }
}

/// The snapshot record that creating an issue appends.
pub open spec fn new_issue_record(id: Seq<char>, new: NewIssue, now: i64) -> IssueRecordView {
    IssueRecordView {
        id,
        title: new.title@,
        body: new.body@,
        status: status_wire(Status::Open),
        priority: new.priority,
        assignee: new.assignee@,
        created_at: now,
        updated_at: Some(now),
        tags: dedup(strs_view(new.tags@)),
    }
}

/// `e` is the error that a failed resolution of `input` reports.
pub open spec fn resolve_error(e: Error, res: Resolution, input: Seq<char>) -> bool {
    match res {
        Resolution::NotFound => e matches Error::IssueNotFound { input: i } && i@ == input,
        Resolution::Ambiguous => e matches Error::IssueIdAmbiguous { input: i } && i@ == input,
        Resolution::Found(_) => false,
    }
}

/// `e` reports that `id` is not an acceptable issue id, and why.
pub open spec fn invalid_id_error(e: Error, id: Seq<char>) -> bool {
    e matches Error::InvalidIssueId { input, reason } && input@ == id && check_issue_id(id)
        == Err::<(), ParseIssueIdError>(reason)
}

/// `e` reports that `id` exists already.
pub open spec fn id_exists_error(e: Error, id: Seq<char>) -> bool {
    e matches Error::IssueIdExists { id: eid } && eid@ == id
}

/// The row of the issue with id `id` in a derived state.
pub open spec fn row(c: CacheView, id: Seq<char>) -> IssueView {
    c.issues[find_issue(c.issues, id)->0]
}

/// The store with one more record in its log.
pub open spec fn appended(s: StoreView, r: RecordView) -> StoreView {
    StoreView { log: s.log.push(r), ..s }
}

/// The hold record that placing hold `h` on issue `id` appends.
pub open spec fn hold_record(id: Seq<char>, h: HoldView, at: i64) -> HoldRecordView {
    HoldRecordView {
        issue_id: id,
        state: active_state(),
        reason: h.reason,
        kind: hold_kind_wire(h.kind),
        until: h.until,
        created_at: at,
    }
}

/// The hold record that releasing the hold `h` of issue `id` appends.
pub open spec fn release_record(id: Seq<char>, h: HoldView, at: i64) -> HoldRecordView {
    HoldRecordView { state: released_state(), ..hold_record(id, h, at) }
}

/// The predicate "is not one of `rm`".
pub open spec fn not_in(rm: Seq<Seq<char>>) -> spec_fn(Seq<char>) -> bool {
    |t: Seq<char>| !rm.contains(t)
}

/// Tags after an edit: the old ones and the added ones, less the removed
/// ones (removal wins), each once.
pub open spec fn edit_tags(old: Seq<Seq<char>>, add: Seq<Seq<char>>, rm: Seq<Seq<char>>) -> Seq<
    Seq<char>,
> {
    dedup((old + add).filter(not_in(rm)))
}

/// The snapshot record an update appends: fields the update sets replace
/// the current ones, `created_at` stays, `updated_at` becomes `now`.
pub open spec fn updated_record(r: IssueView, u: IssueUpdate, now: i64) -> IssueRecordView {
    IssueRecordView {
        id: r.id,
        title: match u.title {
            Some(t) => t@,
            None => r.title,
        },
        body: match u.body {
            Some(b) => b@,
            None => r.body,
        },
        status: status_wire(
            match u.status {
                Some(st) => st,
                None => r.status,
            },
        ),
        priority: match u.priority {
            Some(p) => p,
            None => r.priority,
        },
        assignee: match u.assignee {
            Some(a) => a@,
            None => r.assignee,
        },
        created_at: r.created_at,
        updated_at: Some(now),
        tags: edit_tags(r.tags, strs_view(u.add_tags@), strs_view(u.rm_tags@)),
    }
}

/// The millisecond timestamp a ULID for `now` carries.
pub open spec fn ulid_ms(now: i64) -> nat {
    ((now as u64) % TS_MOD) as nat
}

/// The record a dependency change appends.
pub open spec fn dep_record(src: Seq<char>, dst: Seq<char>, kind: DepKind, removed: bool) -> DepRecordView {
    DepRecordView {
        src_id: src,
        dst_id: dst,
        kind: crate::dep_kind::dep_kind_wire(kind),
        state: if removed { removed_state() } else { active_state() },
    }
}

/// Which error a dependency change between `src` and `dst` reports, if
/// any: the source is resolved first, then the target.
pub open spec fn dep_error(
    e: Error,
    c: CacheView,
    src: Seq<char>,
    dst: Seq<char>,
    check_self: bool,
) -> bool {
    let rs = resolve_spec(c, src);
    let rd = resolve_spec(c, dst);
    ||| !(rs is Found) && resolve_error(e, rs, src)
    ||| rs is Found && !(rd is Found) && resolve_error(e, rd, dst)
    ||| check_self && rs is Found && rd is Found && rs->Found_0 == rd->Found_0 && e is SelfDependency
}

impl Store {
    /// The store's invariant: the derived state is the replay of the log.
    pub closed spec fn wf(&self) -> bool {
        &&& self.cache@ == replay(records_view(self.log@))
        &&& self.ulids.wf()
    }

    /// Open the store rooted at `store_dir` (the `.tix` directory itself)
    /// over the records read back from its log.
    ///
    /// `stored_prefix` is the prefix kept with the store's cache, if any;
    /// without one the prefix is the name of `store_dir`'s parent directory
    /// (`/repo/.tix` gives `repo`), else `"do"`. `ulid_seed` seeds the
    /// comment-id generator.
    pub fn open(store_dir: &str, stored_prefix: Option<&str>, log: Vec<Record>, ulid_seed: u64) -> (r:
        Store)
        ensures
            r.wf(),
            r@.dir == store_dir@,
            r@.prefix == default_prefix(opt_str_view(stored_prefix), parent_name(store_dir@)),
            r@.log == records_view(log@),
            r@.ulids == (UlidGeneratorView { state: ulid_seed, last_ms: 0, last_rand: 0 }),
    {
        let prefix = match stored_prefix {
            Some(p) => owned(p),
            None => match parent_dir_name(store_dir) {
                Some(n) => n,
                None => owned("do"),
            },
        };
        let cache = Store::replay_all(&log);
        Store { dir: owned(store_dir), prefix, log, cache, ulids: UlidGenerator::from_seed(ulid_seed) }
    }

    /// Path of this store's `issues.jsonl` event log.
    pub fn jsonl_path(&self) -> (r: String)
        ensures
            r@ == joined(self@.dir, "issues.jsonl"@),
    {
        join(self.dir.as_str(), "issues.jsonl")
    }

    fn replay_all(log: &Vec<Record>) -> (r: Cache)
        ensures
            r@ == replay(records_view(log@)),
    {
        let mut cache = Cache::new();
        let mut i: usize = 0;
        while i < log.len()
            invariant
                i <= log.len(),
                cache@ == replay(records_view(log@.take(i as int))),
            decreases log.len() - i,
        {
            cache.apply(&log[i]);
            assert(records_view(log@.take(i + 1)).drop_last() =~= records_view(log@.take(i as int)));
            assert(records_view(log@.take(i + 1)).last() == log@[i as int]@);
            i = i + 1;
        }
        assert(log@.take(log.len() as int) =~= log@);
        cache
    }

    fn append(&mut self, record: Record)
        requires
            old(self).wf(),
        ensures
            final(self).wf(),
            final(self)@ == appended(old(self)@, record@),
    {
        self.cache.apply(&record);
        let ghost rv = record@;
        self.log.push(record);
        assert(records_view(self.log@) =~= records_view(old(self).log@).push(rv));
        assert(records_view(self.log@).drop_last() =~= records_view(old(self).log@));
    }

    /// The id prefix used for generated issue ids.
    pub fn prefix(&self) -> (r: &str)
        ensures
            r@ == self@.prefix,
    {
        self.prefix.as_str()
    }

    /// Use a new id prefix. Existing issue ids are unaffected.
    pub fn set_prefix(&mut self, prefix: &str)
        requires
            old(self).wf(),
        ensures
            final(self).wf(),
            final(self)@ == (StoreView { prefix: prefix@, ..old(self)@ }),
    {
        self.prefix = owned(prefix);
    }

    /// Every record in the log, oldest first.
    pub fn records(&self) -> (r: &Vec<Record>)
        ensures
            records_view(r@) == self@.log,
    {
        &self.log
    }

    fn resolve_index(&self, input: &str) -> (r: Result<usize, Error>)
        requires
            self.wf(),
        ensures
            match r {
                Ok(k) => resolve_spec(state(self@), input@) matches Resolution::Found(id) && find_issue(
                    state(self@).issues,
                    id,
                ) == Some(k as int) && k < state(self@).issues.len(),
                Err(e) => resolve_error(e, resolve_spec(state(self@), input@), input@),
            },
    {
        match self.cache.resolve(input) {
            Resolved::Found(id) => {
                let idv = chars_of(id.as_str());
                match self.cache.find_issue(&idv) {
                    Some(k) => Ok(k),
                    None => Err(Error::IssueNotFound { input: owned(input) }),
                }
            },
            Resolved::NotFound => Err(Error::IssueNotFound { input: owned(input) }),
            Resolved::Ambiguous => Err(Error::IssueIdAmbiguous { input: owned(input) }),
        }
    }

    /// Resolve user input to a full issue id: exact match first, otherwise
    /// a prefix match that must be unique — zero matches is
    /// [`Error::IssueNotFound`], two or more [`Error::IssueIdAmbiguous`].
    /// An empty string is a prefix of everything.
    pub fn resolve_id(&self, input: &str) -> (r: Result<IssueId, Error>)
        requires
            self.wf(),
        ensures
            match r {
                Ok(id) => resolve_spec(state(self@), input@) == Resolution::Found(id@),
                Err(e) => resolve_error(e, resolve_spec(state(self@), input@), input@),
            },
    {
        let k = self.resolve_index(input)?;
        let issue = self.cache.issue_at(k);
        proof {
            if let Resolution::Found(v) = resolve_spec(state(self@), input@) {
                cache::lemma_first_from(state(self@).issues, cache::issue_has_id(v), 0);
            }
        }
        Ok(issue.id)
    }

    /// Fetch a full issue snapshot; `id_input` is resolved like
    /// [`Store::resolve_id`].
    pub fn fetch_issue(&self, id_input: &str) -> (r: Result<Issue, Error>)
        requires
            self.wf(),
        ensures
            match r {
                Ok(issue) => resolve_spec(state(self@), id_input@) matches Resolution::Found(id)
                    && issue@ == row(state(self@), id),
                Err(e) => resolve_error(e, resolve_spec(state(self@), id_input@), id_input@),
            },
    {
        let k = self.resolve_index(id_input)?;
        Ok(self.cache.issue_at(k))
    }

    fn new_issue_id(&self, new: &NewIssue, now_ms: i64) -> (r: Vec<char>)
        ensures
            r@ == candidate_id(self@.prefix, *new, now_ms),
    {
        match new.id {
            Some(raw) => chars_of(raw),
            None => {
                let mut seed = chars_of(new.title);
                let digits = i64_decimal(now_ms);
                let mut i: usize = 0;
                while i < digits.len()
                    invariant
                        i <= digits.len(),
                        seed@ == new.title@ + digits@.take(i as int),
                    decreases digits.len() - i,
                {
                    seed.push(digits[i]);
                    assert(seed@ =~= new.title@ + digits@.take(i + 1));
                    i = i + 1;
                }
                assert(digits@.take(digits.len() as int) =~= digits@);
                let seed_text = string_of(&seed);
                let hash = chars_of(short_hash(seed_text.as_str()).as_str());
                let mut id = chars_of(self.prefix.as_str());
                id.push('-');
                let mut j: usize = 0;
                let ghost base = id@;
                while j < hash.len()
                    invariant
                        j <= hash.len(),
                        id@ == base + hash@.take(j as int),
                    decreases hash.len() - j,
                {
                    id.push(hash[j]);
                    assert(id@ =~= base + hash@.take(j + 1));
                    j = j + 1;
                }
                assert(hash@.take(hash.len() as int) =~= hash@);
                assert(id@ =~= generated_id(self@.prefix, new.title@, now_ms));
                id
            },
        }
    }

    /// Create an issue with status `open`, stamped with `now_ms`, and append
    /// its snapshot to the log. The id is `<prefix>-<short_hash(title +
    /// now_ms)>` unless `new.id` is set; either way an id that is not
    /// acceptable is [`Error::InvalidIssueId`] and one that exists already
    /// is [`Error::IssueIdExists`]. Duplicate tags collapse to one.
    pub fn create_issue(&mut self, new: &NewIssue, now_ms: i64) -> (r: Result<IssueId, Error>)
        requires
            old(self).wf(),
        ensures
            final(self).wf(),
            ({
                let id = candidate_id(old(self)@.prefix, *new, now_ms);
                let st = state(old(self)@);
                match r {
                    Ok(rid) => valid_issue_id(id) && find_issue(st.issues, id) is None && rid@ == id
                        && final(self)@ == appended(
                        old(self)@,
                        RecordView::Issue(new_issue_record(id, *new, now_ms)),
                    ),
                    Err(e) => final(self)@ == old(self)@ && ((!valid_issue_id(id)
                        && invalid_id_error(e, id)) || (valid_issue_id(id) && find_issue(
                        st.issues,
                        id,
                    ) is Some && id_exists_error(e, id))),
                }
            }),
    {
        let idv = self.new_issue_id(new, now_ms);
        let id = match crate::issue_id::check_id_chars(&idv) {
            Ok(()) => {
                proof {
                    crate::issue_id::lemma_check_issue_id_exact(idv@);
                }
                IssueId::from_valid_chars(&idv)
            },
            Err(reason) => {
                proof {
                    crate::issue_id::lemma_check_issue_id_exact(idv@);
                }
                return Err(Error::InvalidIssueId { input: string_of(&idv), reason });
            },
        };
        if self.cache.find_issue(&idv).is_some() {
            return Err(Error::IssueIdExists { id });
        }
        let mut raw_tags: Vec<String> = Vec::new();
        let mut i: usize = 0;
        while i < new.tags.len()
            invariant
                i <= new.tags@.len(),
                crate::issue::strings_view(raw_tags@) == strs_view(new.tags@.take(i as int)),
            decreases new.tags@.len() - i,
        {
            let ghost before = crate::issue::strings_view(raw_tags@);
            let t = owned(new.tags[i]);
            assert(t@ == new.tags@[i as int]@);
            let ghost tv = t@;
            raw_tags.push(t);
            assert(crate::issue::strings_view(raw_tags@) =~= before.push(tv));
            assert(strs_view(new.tags@.take(i + 1)) =~= strs_view(new.tags@.take(i as int)).push(tv));
            i = i + 1;
        }
        assert(new.tags@.take(new.tags@.len() as int) =~= new.tags@);
        let tags = cache::dedup_tags(&raw_tags);
        let record = IssueRecord {
            id: owned(id.as_str()),
            title: owned(new.title),
            body: owned(new.body),
            status: owned(Status::Open.as_str()),
            priority: new.priority,
            assignee: owned(new.assignee),
            created_at: now_ms,
            updated_at: Some(now_ms),
            tags,
        };
        assert(record@ == new_issue_record(idv@, *new, now_ms));
        self.append(Record::Issue(record));
        Ok(id)
    }
}

fn strs_contain(v: &[&str], t: &String) -> (r: bool)
    ensures
        r == strs_view(v@).contains(t@),
{
    let mut i: usize = 0;
    while i < v.len()
        invariant
            i <= v@.len(),
            forall|j: int| 0 <= j < i ==> v@[j]@ != t@,
        decreases v@.len() - i,
    {
        if crate::text::str_eq(v[i], t.as_str()) {
            assert(strs_view(v@)[i as int] == t@);
            return true;
        }
        i = i + 1;
    }
    assert forall|j: int| 0 <= j < strs_view(v@).len() implies strs_view(v@)[j] != t@ by {
        assert(strs_view(v@)[j] == v@[j]@);
    }
    false
}

fn edited_tags(old: &Vec<String>, add: &[&str], rm: &[&str]) -> (r: Vec<String>)
    ensures
        strings_view(r@) == edit_tags(strings_view(old@), strs_view(add@), strs_view(rm@)),
{
    let mut all = copy_strings(old);
    let mut i: usize = 0;
    while i < add.len()
        invariant
            i <= add@.len(),
            strings_view(all@) == strings_view(old@) + strs_view(add@.take(i as int)),
        decreases add@.len() - i,
    {
        let t = owned(add[i]);
        let ghost before = strings_view(all@);
        let ghost tv = t@;
        assert(tv == add@[i as int]@);
        all.push(t);
        assert(strings_view(all@) =~= before.push(tv));
        assert(strs_view(add@.take(i + 1)) =~= strs_view(add@.take(i as int)).push(tv));
        i = i + 1;
    }
    assert(add@.take(add@.len() as int) =~= add@);
    let ghost s = strings_view(all@);
    let ghost p = not_in(strs_view(rm@));
    let mut kept: Vec<String> = Vec::new();
    let mut j: usize = 0;
    while j < all.len()
        invariant
            j <= all.len(),
            s == strings_view(all@),
            p == not_in(strs_view(rm@)),
            strings_view(kept@) == s.take(j as int).filter(p),
        decreases all.len() - j,
    {
        proof {
            assert(s.take(j + 1) =~= s.take(j as int).push(s[j as int]));
            s.take(j as int).lemma_filter_push(s[j as int], p);
        }
        if !strs_contain(rm, &all[j]) {
            let ghost before = strings_view(kept@);
            kept.push(all[j].clone());
            assert(strings_view(kept@) =~= before.push(s[j as int]));
        }
        j = j + 1;
    }
    assert(s.take(s.len() as int) =~= s);
    cache::dedup_tags(&kept)
}

impl Store {
    /// Apply a partial update, set `updated_at` to `now_ms` (keeping
    /// `created_at`), and append the resulting full snapshot to the log.
    /// Removing a tag the issue does not carry is a no-op. Returns the
    /// resolved id.
    pub fn update_issue(&mut self, id_input: &str, update: &IssueUpdate, now_ms: i64) -> (r: Result<
        IssueId,
        Error,
    >)
        requires
            old(self).wf(),
        ensures
            final(self).wf(),
            ({
                let st = state(old(self)@);
                let res = resolve_spec(st, id_input@);
                match r {
                    Ok(id) => res == Resolution::Found(id@) && final(self)@ == appended(
                        old(self)@,
                        RecordView::Issue(updated_record(row(st, id@), *update, now_ms)),
                    ),
                    Err(e) => final(self)@ == old(self)@ && resolve_error(e, res, id_input@),
                }
            }),
    {
        let k = self.resolve_index(id_input)?;
        let cur = self.cache.issue_at(k);
        proof {
            if let Resolution::Found(v) = resolve_spec(state(self@), id_input@) {
                cache::lemma_first_from(state(self@).issues, cache::issue_has_id(v), 0);
            }
        }
        let tags = edited_tags(&cur.tags, update.add_tags, update.rm_tags);
        let status = match update.status {
            Some(st) => st,
            None => cur.status,
        };
        let record = IssueRecord {
            id: owned(cur.id.as_str()),
            title: match update.title {
                Some(t) => owned(t),
                None => cur.title.clone(),
            },
            body: match update.body {
                Some(b) => owned(b),
                None => cur.body.clone(),
            },
            status: owned(status.as_str()),
            priority: match update.priority {
                Some(p) => p,
                None => cur.priority,
            },
            assignee: match update.assignee {
                Some(a) => owned(a),
                None => cur.assignee.clone(),
            },
            created_at: cur.created_at,
            updated_at: Some(now_ms),
            tags,
        };
        assert(record@ == updated_record(cur@, *update, now_ms));
        self.append(Record::Issue(record));
        Ok(cur.id)
    }

    /// Add a comment (empty `author` = anonymous) stamped with `now_ms` and
    /// append it to the log. The comment id is the generator's next ULID.
    pub fn add_comment(&mut self, issue_id: &str, author: &str, body: &str, now_ms: i64) -> (r:
        Result<CommentId, Error>)
        requires
            old(self).wf(),
        ensures
            final(self).wf(),
            ({
                let st = state(old(self)@);
                let res = resolve_spec(st, issue_id@);
                let g = next_state(old(self)@.ulids, ulid_ms(now_ms));
                match r {
                    Ok(cid) => res is Found && cid@ == last_ulid(g) && final(self)@ == (StoreView {
                        log: old(self)@.log.push(
                            RecordView::Comment(
                                CommentRecordView {
                                    id: cid@,
                                    issue_id: res->Found_0,
                                    author: author@,
                                    body: body@,
                                    created_at: now_ms,
                                },
                            ),
                        ),
                        ulids: g,
                        ..old(self)@
                    }),
                    Err(e) => final(self)@ == old(self)@ && resolve_error(e, res, issue_id@),
                }
            }),
    {
        let k = self.resolve_index(issue_id)?;
        let target = self.cache.issue_at(k);
        proof {
            if let Resolution::Found(v) = resolve_spec(state(self@), issue_id@) {
                cache::lemma_first_from(state(self@).issues, cache::issue_has_id(v), 0);
            }
        }
        let ulid = self.ulids.next(now_ms as u64);
        let record = CommentRecord {
            id: ulid.clone(),
            issue_id: owned(target.id.as_str()),
            author: owned(author),
            body: owned(body),
            created_at: now_ms,
        };
        self.append(Record::Comment(record));
        Ok(CommentId::new(ulid))
    }

    /// All comments on an issue, oldest first.
    pub fn comments(&self, issue_id: &str) -> (r: Result<Vec<Comment>, Error>)
        requires
            self.wf(),
        ensures
            ({
                let st = state(self@);
                let res = resolve_spec(st, issue_id@);
                match r {
                    Ok(v) => res is Found && comments_view(v@) == sort_comments(
                        st.comments.filter(comment_on(res->Found_0)),
                    ) && (forall|x: CommentView| #[trigger]
                        comments_view(v@).contains(x) <==> st.comments.contains(x) && x.issue_id
                            == res->Found_0) && (forall|i: int, j: int|
                        0 <= i < j < v.len() ==> comments_view(v@)[i].created_at <= comments_view(
                            v@,
                        )[j].created_at),
                    Err(e) => resolve_error(e, res, issue_id@),
                }
            }),
    {
        let id = self.resolve_id(issue_id)?;
        let idv = chars_of(id.as_str());
        proof {
            laws::lemma_comments_of_issue(state(self@), idv@);
        }
        Ok(self.cache.comments_of(&idv))
    }

    fn dep_change(&mut self, src: &str, kind: DepKind, dst: &str, removed: bool) -> (r: Result<
        (),
        Error,
    >)
        requires
            old(self).wf(),
        ensures
            final(self).wf(),
            ({
                let st = state(old(self)@);
                let rs = resolve_spec(st, src@);
                let rd = resolve_spec(st, dst@);
                match r {
                    Ok(()) => rs is Found && rd is Found && (!removed ==> rs->Found_0
                        != rd->Found_0) && final(self)@ == appended(
                        old(self)@,
                        RecordView::Dep(dep_record(rs->Found_0, rd->Found_0, kind, removed)),
                    ),
                    Err(e) => final(self)@ == old(self)@ && dep_error(e, st, src@, dst@, !removed),
                }
            }),
    {
        let src_id = self.resolve_id(src)?;
        let dst_id = self.resolve_id(dst)?;
        let sv = chars_of(src_id.as_str());
        let dv = chars_of(dst_id.as_str());
        if !removed && chars_eq(&sv, &dv) {
            return Err(Error::SelfDependency);
        }
        let record = DepRecord::edge(&src_id, &dst_id, kind, removed);
        self.append(Record::Dep(record));
        Ok(())
    }

    /// Record `src` −`kind`→ `dst` (e.g. src blocks dst) and append an
    /// active dep record. Both endpoints must resolve; `src == dst` is
    /// [`Error::SelfDependency`]; re-adding an existing edge is idempotent.
    pub fn add_dep(&mut self, src: &str, kind: DepKind, dst: &str) -> (r: Result<(), Error>)
        requires
            old(self).wf(),
        ensures
            final(self).wf(),
            ({
                let st = state(old(self)@);
                let rs = resolve_spec(st, src@);
                let rd = resolve_spec(st, dst@);
                match r {
                    Ok(()) => rs is Found && rd is Found && rs->Found_0 != rd->Found_0
                        && final(self)@ == appended(
                        old(self)@,
                        RecordView::Dep(dep_record(rs->Found_0, rd->Found_0, kind, false)),
                    ),
                    Err(e) => final(self)@ == old(self)@ && dep_error(e, st, src@, dst@, true),
                }
            }),
    {
        self.dep_change(src, kind, dst, false)
    }

    /// Remove a dependency edge and append a removed dep record (the log is
    /// append-only; removal is an event). Both endpoints must resolve.
    pub fn remove_dep(&mut self, src: &str, kind: DepKind, dst: &str) -> (r: Result<(), Error>)
        requires
            old(self).wf(),
        ensures
            final(self).wf(),
            ({
                let st = state(old(self)@);
                let rs = resolve_spec(st, src@);
                let rd = resolve_spec(st, dst@);
                match r {
                    Ok(()) => rs is Found && rd is Found && final(self)@ == appended(
                        old(self)@,
                        RecordView::Dep(dep_record(rs->Found_0, rd->Found_0, kind, true)),
                    ),
                    Err(e) => final(self)@ == old(self)@ && dep_error(e, st, src@, dst@, false),
                }
            }),
    {
        self.dep_change(src, kind, dst, true)
    }

    /// Active dependency edges touching the issue (as either endpoint),
    /// ordered by source id, then target id, then kind name.
    pub fn deps(&self, issue_id: &str) -> (r: Result<Vec<Dep>, Error>)
        requires
            self.wf(),
        ensures
            ({
                let st = state(self@);
                let res = resolve_spec(st, issue_id@);
                match r {
                    Ok(v) => res is Found && deps_view(v@) == sort_deps(
                        st.deps.filter(edge_touches(res->Found_0)),
                    ) && (forall|e: DepView| #[trigger]
                        deps_view(v@).contains(e) <==> st.deps.contains(e) && (e.src
                            == res->Found_0 || e.dst == res->Found_0)),
                    Err(e) => resolve_error(e, res, issue_id@),
                }
            }),
    {
        let id = self.resolve_id(issue_id)?;
        let idv = chars_of(id.as_str());
        proof {
            laws::lemma_deps_of_issue(state(self@), idv@);
        }
        Ok(self.cache.deps_of(&idv))
    }

    /// Issues matching the filter, most recently updated first.
    pub fn list(&self, filter: &ListFilter) -> (r: Vec<Issue>)
        requires
            self.wf(),
        ensures
            issues_view(r@) == sort_issues(
                state(self@).issues.filter(
                    list_pred(filter.status, opt_str_view(filter.assignee), opt_str_view(filter.tag)),
                ),
                IssueOrder::UpdatedDesc,
            ),
            forall|v: IssueView| #[trigger]
                issues_view(r@).contains(v) <==> {
                    &&& state(self@).issues.contains(v)
                    &&& (filter.status matches Some(st) ==> v.status == st)
                    &&& (filter.assignee matches Some(a) ==> v.assignee == a@)
                    &&& (filter.tag matches Some(t) ==> v.tags.contains(t@))
                },
            forall|i: int, j: int|
                0 <= i < j < r.len() ==> issues_view(r@)[i].updated_at >= issues_view(r@)[j].updated_at,
    {
        proof {
            laws::lemma_list_meets_every_filter(
                state(self@),
                filter.status,
                opt_str_view(filter.assignee),
                opt_str_view(filter.tag),
            );
        }
        self.cache.list(filter.status, filter.assignee, filter.tag)
    }

    /// Issues ready to work at time `now_ms`: status open, not held, and not
    /// blocked by an open or in-progress issue through an active `blocks`
    /// edge (a chain of such edges blocks only through open or in-progress
    /// issues, so its last edge decides). Priority ascending (1 first), then
    /// most recently updated. `assignee` narrows to one assignee.
    pub fn ready(&self, assignee: Option<&str>, now_ms: i64) -> (r: Vec<Issue>)
        requires
            self.wf(),
        ensures
            issues_view(r@) == sort_issues(
                state(self@).issues.filter(ready_pred(state(self@), opt_str_view(assignee), now_ms)),
                IssueOrder::PriorityThenUpdatedDesc,
            ),
            ({
                let c = state(self@);
                forall|v: IssueView| #[trigger]
                    issues_view(r@).contains(v) <==> {
                        &&& c.issues.contains(v)
                        &&& v.status == Status::Open
                        &&& (v.hold matches Some(h) ==> (h.until matches Some(u) && u <= now_ms))
                        &&& !exists|k: int, j: int|
                            #![trigger c.deps[k], c.issues[j]]
                            0 <= k < c.deps.len() && 0 <= j < c.issues.len() && c.deps[k].kind
                                == DepKind::Blocks && c.deps[k].dst == v.id && c.issues[j].id
                                == c.deps[k].src && (c.issues[j].status == Status::Open
                                || c.issues[j].status == Status::InProgress)
                        &&& (assignee matches Some(a) ==> v.assignee == a@)
                    }
            }),
    {
        proof {
            laws::lemma_ready_queue(state(self@), opt_str_view(assignee), now_ms);
        }
        self.cache.ready(assignee, now_ms)
    }

    /// Full-text search (SQLite FTS5) over titles, bodies and comment
    /// text, best match first (by `bm25`), then most recently updated.
    /// Matching is term-based, not substring, and `query` is an FTS5 query.
    /// The search succeeds whenever SQLite accepts the query (and the store
    /// has fewer issues than `i64` has positive values); a query SQLite
    /// rejects is [`Error::Sqlite`].
    pub fn search(&self, query: &str) -> (r: Result<Vec<Issue>, Error>)
        requires
            self.wf(),
        ensures
            fts_ranked(search_docs(state(self@)), query@) is Some && state(self@).issues.len()
                <= i64::MAX ==> r is Ok,
            match r {
                Ok(v) => fts_ranked(search_docs(state(self@)), query@) matches Some(ranked)
                    && issues_view(v@) == rows_by_rowid(state(self@), ranked),
                Err(e) => e is Sqlite,
            },
    {
        let mut db = match fts::open_memory() {
            Ok(db) => db,
            Err(e) => return Err(Error::Sqlite { message: fts::sqlite_message(&e) }),
        };
        match fts::create_docs_table(&mut db) {
            Ok(()) => {},
            Err(e) => return Err(Error::Sqlite { message: fts::sqlite_message(&e) }),
        }
        let n = self.cache.issue_count();
        let ghost c = state(self@);
        let mut k: usize = 0;
        while k < n
            invariant
                k <= n,
                n == c.issues.len(),
                c == self.cache@,
                c == state(self@),
                fts_table(db),
                fts_docs(db) == search_docs(c).take(k as int),
            decreases n - k,
        {
            let doc = self.cache.search_doc_at(k);
            proof {
                if n <= i64::MAX {
                    assert(doc@ == search_doc(c, k as int));
                    assert(doc.rowid == k as i64);
                    assert forall|i: int| 0 <= i < fts_docs(db).len() implies #[trigger] fts_docs(
                        db,
                    )[i].rowid != doc.rowid by {
                        assert(fts_docs(db)[i] == search_doc(c, i));
                        assert(fts_docs(db)[i].rowid == i as i64);
                        assert(0 <= i < k);
                    }
                }
            }
            match fts::insert_doc(&mut db, &doc) {
                Ok(_) => {},
                Err(e) => return Err(Error::Sqlite { message: fts::sqlite_message(&e) }),
            }
            assert(search_docs(c).take(k + 1) =~= search_docs(c).take(k as int).push(
                search_doc(c, k as int),
            ));
            k = k + 1;
        }
        assert(search_docs(c).take(n as int) =~= search_docs(c));
        match fts::match_docs(&db, query) {
            Ok(ranked) => Ok(self.search_hits(&ranked)),
            Err(e) => Err(Error::Sqlite { message: fts::sqlite_message(&e) }),
        }
    }

    /// The issues that a ranked list of search rowids names, in that order
    /// (rowid `k` is issue row `k`; rowids naming no row are passed over).
    pub fn search_hits(&self, ranked: &Vec<i64>) -> (r: Vec<Issue>)
        requires
            self.wf(),
        ensures
            issues_view(r@) == rows_by_rowid(state(self@), ranked@),
    {
        self.cache.rows_by_rowid(ranked)
    }

    /// Rebuild the derived state from the log as read back from disk.
    /// Behaviorally a no-op when that log is the store's own.
    pub fn force_reimport(&mut self, log: Vec<Record>)
        requires
            old(self).wf(),
        ensures
            final(self).wf(),
            final(self)@ == (StoreView { log: records_view(log@), ..old(self)@ }),
    {
        self.cache = Store::replay_all(&log);
        self.log = log;
    }

    /// Place a hold on an issue: appends an active hold record. The issue
    /// keeps its status but `ready` excludes it while the hold is in force.
    /// Holding an already-held issue replaces the hold.
    pub fn hold(&mut self, id_input: &str, hold: &Hold, now_ms: i64) -> (r: Result<IssueId, Error>)
        requires
            old(self).wf(),
        ensures
            final(self).wf(),
            ({
                let res = resolve_spec(state(old(self)@), id_input@);
                match r {
                    Ok(id) => res == Resolution::Found(id@) && final(self)@ == appended(
                        old(self)@,
                        RecordView::Hold(hold_record(id@, hold@, now_ms)),
                    ),
                    Err(e) => final(self)@ == old(self)@ && resolve_error(e, res, id_input@),
                }
            }),
    {
        let id = self.resolve_id(id_input)?;
        let record = HoldRecord {
            issue_id: owned(id.as_str()),
            state: owned("active"),
            reason: hold.reason.clone(),
            kind: owned(hold.kind.as_str()),
            until: hold.until,
            created_at: now_ms,
        };
        self.append(Record::Hold(record));
        Ok(id)
    }

    /// Release an active hold: appends a released hold record. Releasing an
    /// unheld issue is a no-op.
    pub fn unhold(&mut self, id_input: &str, now_ms: i64) -> (r: Result<IssueId, Error>)
        requires
            old(self).wf(),
        ensures
            final(self).wf(),
            ({
                let st = state(old(self)@);
                let res = resolve_spec(st, id_input@);
                match r {
                    Ok(id) => res == Resolution::Found(id@) && match row(st, id@).hold {
                        Some(h) => final(self)@ == appended(
                            old(self)@,
                            RecordView::Hold(release_record(id@, h, now_ms)),
                        ),
                        None => final(self)@ == old(self)@,
                    },
                    Err(e) => final(self)@ == old(self)@ && resolve_error(e, res, id_input@),
                }
            }),
    {
        let k = self.resolve_index(id_input)?;
        let cur = self.cache.issue_at(k);
        proof {
            if let Resolution::Found(v) = resolve_spec(state(self@), id_input@) {
                cache::lemma_first_from(state(self@).issues, cache::issue_has_id(v), 0);
            }
        }
        match &cur.hold {
            Some(h) => {
                let record = HoldRecord {
                    issue_id: owned(cur.id.as_str()),
                    state: owned("released"),
                    reason: h.reason.clone(),
                    kind: owned(h.kind.as_str()),
                    until: h.until,
                    created_at: now_ms,
                };
                self.append(Record::Hold(record));
            },
            None => {},
        }
        Ok(cur.id)
    }

    /// Delete an issue as a tombstone: appends a delete record. The issue
    /// disappears from fetch, list, ready and search, but every earlier
    /// record stays in the log.
    pub fn delete(&mut self, id_input: &str, now_ms: i64) -> (r: Result<IssueId, Error>)
        requires
            old(self).wf(),
        ensures
            final(self).wf(),
            ({
                let res = resolve_spec(state(old(self)@), id_input@);
                match r {
                    Ok(id) => res == Resolution::Found(id@) && final(self)@ == appended(
                        old(self)@,
                        RecordView::Delete(DeleteRecordView { issue_id: id@, deleted_at: now_ms }),
                    ),
                    Err(e) => final(self)@ == old(self)@ && resolve_error(e, res, id_input@),
                }
            }),
    {
        let id = self.resolve_id(id_input)?;
        let record = DeleteRecord { issue_id: owned(id.as_str()), deleted_at: now_ms };
        self.append(Record::Delete(record));
        Ok(id)
    }

    /// The store's event stream: every record of its log, oldest first. A
    /// fresh store that imports it replays to the same state, ids included.
    pub fn export(&self) -> (r: Vec<Record>)
        ensures
            records_view(r@) == self@.log,
    {
        let mut out: Vec<Record> = Vec::new();
        let mut i: usize = 0;
        while i < self.log.len()
            invariant
                i <= self.log.len(),
                records_view(out@) == records_view(self.log@.take(i as int)),
            decreases self.log.len() - i,
        {
            let ghost before = records_view(out@);
            let rec = self.log[i].duplicate();
            let ghost rv = rec@;
            out.push(rec);
            assert(records_view(out@) =~= before.push(rv));
            assert(records_view(self.log@.take(i + 1)) =~= records_view(self.log@.take(i as int)).push(rv));
            i = i + 1;
        }
        assert(self.log@.take(self.log.len() as int) =~= self.log@);
        out
    }

    /// Render the store as a `backlog.md` document: `## In flight`,
    /// `## Queued` and `## Done` sections (statuses in progress, open,
    /// closed) of `- [ ] <id> - <title>` bullets (`- [x]` under Done),
    /// ordered by priority, then creation time, then id; trailing
    /// `(repo: …) (kind: …) (since YYYY-MM-DD)` tags, `(closed …)` on Done
    /// rows and `(hold: …) (hold-kind: …)` on held issues; body lines
    /// indented by two spaces. Dates are UTC.
    pub fn dump_backlog(&self) -> (r: String)
        requires
            self.wf(),
        ensures
            r@ == backlog::backlog(state(self@)),
    {
        backlog::render_backlog(&self.cache)
    }

    /// Import an event stream: append every record to the log and apply it,
    /// ids preserved. Returns the number of records applied.
    pub fn import(&mut self, events: Vec<Record>) -> (r: usize)
        requires
            old(self).wf(),
        ensures
            final(self).wf(),
            final(self)@ == (StoreView { log: old(self)@.log + records_view(events@), ..old(self)@ }),
            r == events@.len(),
    {
        let mut i: usize = 0;
        while i < events.len()
            invariant
                i <= events.len(),
                self.wf(),
                self@ == (StoreView {
                    log: old(self)@.log + records_view(events@.take(i as int)),
                    ..old(self)@
                }),
            decreases events.len() - i,
        {
            let rec = events[i].duplicate();
            let ghost rv = rec@;
            self.append(rec);
            assert(records_view(events@.take(i + 1)) =~= records_view(events@.take(i as int)).push(rv));
            assert(old(self)@.log + records_view(events@.take(i + 1)) =~= (old(self)@.log
                + records_view(events@.take(i as int))).push(rv));
            i = i + 1;
        }
        assert(events@.take(events.len() as int) =~= events@);
        events.len()
    }
}

} // verus!
