use vstd::prelude::*;
use vstd::string::StringExecFns;
use crate::message::{message_type, text_field, Message};
use crate::text::{chars_of, lines, split_lines, starts_with, text_eq, text_from_chars, texts};

verus! {

/// One side of a sync target: an empty host means a local path.
pub struct SyncEndpoint {
    pub host: String,
    pub path: String,
    pub user: String,
}

/// A configured sync target: a named pair of endpoints and, once a sync
/// succeeded, when it last did.
pub struct SyncTarget {
    pub name: String,
    pub local: SyncEndpoint,
    pub remote: SyncEndpoint,
    pub last_synced: Option<String>,
}

/// The rsync argument that names an endpoint: `path`, `host:path` or `user@host:path`.
pub open spec fn rsync_location(host: Seq<char>, path: Seq<char>, user: Seq<char>) -> Seq<char> {
    if host.len() == 0 {
        path
    } else if user.len() == 0 {
        host + seq![':'] + path
    } else {
        user + seq!['@'] + host + seq![':'] + path
    }
}

pub open spec fn endpoint_location(ep: SyncEndpoint) -> Seq<char> {
    rsync_location(ep.host@, ep.path@, ep.user@)
}

/// Renders an endpoint as the location argument that rsync takes.
pub fn endpoint_to_rsync_path(ep: &SyncEndpoint) -> (res: String)
    ensures
        res@ == endpoint_location(*ep),
{
    proof {
        reveal_strlit(":");
        reveal_strlit("@");
    }
    if ep.host.as_str().is_empty() {
        ep.path.clone()
    } else if ep.user.as_str().is_empty() {
        ep.host.clone().concat(":").concat(ep.path.as_str())
    } else {
        ep.user.clone().concat("@").concat(ep.host.as_str()).concat(":").concat(ep.path.as_str())
    }
}


impl SyncEndpoint {
    /// A copy with the same field values.
    pub fn duplicate(&self) -> (res: SyncEndpoint)
        ensures
            res == *self,
    {
        SyncEndpoint { host: self.host.clone(), path: self.path.clone(), user: self.user.clone() }
    }
}

impl SyncTarget {
    /// A copy with the same field values.
    pub fn duplicate(&self) -> (res: SyncTarget)
        ensures
            res == *self,
    {
        let last_synced = match &self.last_synced {
            Some(t) => Some(t.clone()),
            None => None,
        };
        SyncTarget {
            name: self.name.clone(),
            local: self.local.duplicate(),
            remote: self.remote.duplicate(),
            last_synced,
        }
    }
}

/// Which way a sync copies.
#[derive(PartialEq, Eq, Structural, Clone, Copy)]
pub enum Direction {
    /// Local endpoint to remote endpoint.
    Push,
    /// Remote endpoint to local endpoint.
    Pull,
}

/// The name the protocol gives a direction.
pub open spec fn direction_text(d: Direction) -> Seq<char> {
    match d {
        Direction::Push => "push"@,
        Direction::Pull => "pull"@,
    }
}

impl Direction {
    /// `"push"` or `"pull"`.
    pub fn as_text(&self) -> (res: String)
        ensures
            res@ == direction_text(*self),
    {
        match self {
            Direction::Push => "push".to_owned(),
            Direction::Pull => "pull".to_owned(),
        }
    }
}

/// The rsync source and destination for a sync of `t` in direction `d`.
pub open spec fn sync_route(t: SyncTarget, d: Direction) -> (Seq<char>, Seq<char>) {
    match d {
        Direction::Push => (endpoint_location(t.local), endpoint_location(t.remote)),
        Direction::Pull => (endpoint_location(t.remote), endpoint_location(t.local)),
    }
}

/// The rsync source and destination: a push copies local to remote, a pull remote to local.
pub fn sync_paths(target: &SyncTarget, direction: Direction) -> (res: (String, String))
    ensures
        (res.0@, res.1@) == sync_route(*target, direction),
{
    match direction {
        Direction::Push => (endpoint_to_rsync_path(&target.local), endpoint_to_rsync_path(&target.remote)),
        Direction::Pull => (endpoint_to_rsync_path(&target.remote), endpoint_to_rsync_path(&target.local)),
    }
}

// ---- the stored target list ----

pub open spec fn has_target(s: Seq<SyncTarget>, name: Seq<char>) -> bool {
    exists|i: int| 0 <= i < s.len() && s[i].name@ == name
}

/// Whether `i` is the first target called `name`.
pub open spec fn is_first_named(s: Seq<SyncTarget>, name: Seq<char>, i: int) -> bool {
    0 <= i < s.len() && s[i].name@ == name && forall|j: int| 0 <= j < i ==> s[j].name@ != name
}

/// The first target called `name` (meaningful when there is one).
pub open spec fn first_named(s: Seq<SyncTarget>, name: Seq<char>) -> int {
    choose|i: int| is_first_named(s, name, i)
}

pub proof fn lemma_first_named(s: Seq<SyncTarget>, name: Seq<char>, i: int)
    requires
        is_first_named(s, name, i),
    ensures
        first_named(s, name) == i,
        has_target(s, name),
{
    let k = first_named(s, name);
    assert(is_first_named(s, name, k));
    if k < i {
        assert(s[k].name@ != name);
    } else if k > i {
        assert(s[i].name@ != name);
    }
}

/// A target of that name exists exactly when a first one does.
pub proof fn lemma_first_exists(s: Seq<SyncTarget>, name: Seq<char>)
    requires
        has_target(s, name),
    ensures
        is_first_named(s, name, first_named(s, name)),
    decreases s.len(),
{
    let p = s.drop_last();
    if has_target(p, name) {
        lemma_first_exists(p, name);
        let i = first_named(p, name);
        assert forall|j: int| 0 <= j <= i implies s[j] == p[j] by {}
        assert(is_first_named(s, name, i));
        lemma_first_named(s, name, i);
    } else {
        let w = choose|i: int| 0 <= i < s.len() && s[i].name@ == name;
        if w < s.len() - 1 {
            assert(p[w].name@ == name);
        }
        let i = s.len() - 1;
        assert forall|j: int| 0 <= j < i implies s[j].name@ != name by {
            assert(p[j] == s[j]);
        }
        assert(is_first_named(s, name, i));
        lemma_first_named(s, name, i);
    }
}

/// Where the first target called `name` stands, if any.
pub fn find_target(targets: &Vec<SyncTarget>, name: &str) -> (res: Option<usize>)
    ensures
        match res {
            Some(i) => is_first_named(targets@, name@, i as int) && i as int == first_named(
                targets@,
                name@,
            ),
            None => !has_target(targets@, name@),
        },
{
    let mut i: usize = 0;
    while i < targets.len()
        invariant
            i <= targets.len(),
            forall|j: int| 0 <= j < i ==> targets@[j].name@ != name@,
        decreases targets.len() - i,
    {
        if text_eq(targets[i].name.as_str(), name) {
            proof {
                lemma_first_named(targets@, name@, i as int);
            }
            return Some(i);
        }
        i = i + 1;
    }
    None
}

/// `sync_save`: the target replaces the first one of the same name, or joins the end.
pub open spec fn saved_targets(s: Seq<SyncTarget>, t: SyncTarget) -> Seq<SyncTarget> {
    if has_target(s, t.name@) {
        s.update(first_named(s, t.name@), t)
    } else {
        s.push(t)
    }
}

/// Stores a target: it replaces the first target of the same name, or joins the end.
pub fn save_target(targets: &mut Vec<SyncTarget>, target: SyncTarget)
    ensures
        final(targets)@ == saved_targets(old(targets)@, target),
{
    match find_target(targets, target.name.as_str()) {
        Some(i) => {
            targets.set(i, target);
        },
        None => {
            targets.push(target);
        },
    }
}

/// `sync_delete`: every target called `name` is dropped; the rest keep their order.
pub open spec fn without_target(s: Seq<SyncTarget>, name: Seq<char>) -> Seq<SyncTarget>
    decreases s.len(),
{
    if s.len() == 0 {
        Seq::empty()
    } else if s.last().name@ == name {
        without_target(s.drop_last(), name)
    } else {
        without_target(s.drop_last(), name).push(s.last())
    }
}

/// Drops every target called `name`.
pub fn delete_target(targets: &mut Vec<SyncTarget>, name: &str)
    ensures
        final(targets)@ == without_target(old(targets)@, name@),
{
    let mut kept: Vec<SyncTarget> = Vec::new();
    let mut i: usize = 0;
    assert(targets@.take(0) =~= Seq::<SyncTarget>::empty());
    while i < targets.len()
        invariant
            i <= targets.len(),
            targets@ == old(targets)@,
            kept@ == without_target(targets@.take(i as int), name@),
        decreases targets.len() - i,
    {
        proof {
            assert(targets@.take(i + 1).drop_last() =~= targets@.take(i as int));
        }
        if !text_eq(targets[i].name.as_str(), name) {
            kept.push(targets[i].duplicate());
        }
        i = i + 1;
    }
    assert(targets@.take(i as int) =~= targets@);
    *targets = kept;
}

/// Records when the first target called `name` was last synced; says whether there was one.
pub fn stamp_last_synced(targets: &mut Vec<SyncTarget>, name: &str, stamp: String) -> (found: bool)
    ensures
        found == has_target(old(targets)@, name@),
        found ==> ({
            let i = first_named(old(targets)@, name@);
            final(targets)@ == old(targets)@.update(
                i,
                SyncTarget { last_synced: Some(stamp), ..old(targets)@[i] },
            )
        }),
        !found ==> final(targets)@ == old(targets)@,
{
    match find_target(targets, name) {
        Some(i) => {
            let t = targets[i].duplicate();
            targets.set(i, SyncTarget { last_synced: Some(stamp), ..t });
            true
        },
        None => false,
    }
}

// ---- targets that are syncing right now ----

/// The names of the targets whose sync is under way.
pub struct Syncing {
    names: Vec<String>,
}

impl View for Syncing {
    type V = Set<Seq<char>>;

    closed spec fn view(&self) -> Set<Seq<char>> {
        texts(self.names@).to_set()
    }
}

impl Syncing {
    /// The invariant: each name at most once.
    pub closed spec fn wf(&self) -> bool {
        texts(self.names@).no_duplicates()
    }

    /// No sync under way.
    pub fn new() -> (res: Syncing)
        ensures
            res.wf(),
            res@ == Set::<Seq<char>>::empty(),
    {
        let res = Syncing { names: Vec::new() };
        assert(texts(res.names@) =~= Seq::<Seq<char>>::empty());
        assert(res@ =~= Set::<Seq<char>>::empty());
        res
    }

    fn position(&self, name: &str) -> (res: Option<usize>)
        ensures
            match res {
                Some(i) => i < self.names.len() && self.names@[i as int]@ == name@ && self@.contains(
                    name@,
                ),
                None => !self@.contains(name@),
            },
    {
        let mut i: usize = 0;
        while i < self.names.len()
            invariant
                i <= self.names.len(),
                forall|j: int| 0 <= j < i ==> self.names@[j]@ != name@,
            decreases self.names.len() - i,
        {
            if text_eq(self.names[i].as_str(), name) {
                proof {
                    assert(texts(self.names@)[i as int] == name@);
                    assert(texts(self.names@).contains(name@));
                }
                return Some(i);
            }
            i = i + 1;
        }
        proof {
            if self@.contains(name@) {
                let j = choose|j: int| 0 <= j < texts(self.names@).len() && texts(self.names@)[j] == name@;
                assert(self.names@[j]@ == name@);
            }
        }
        None
    }

    /// Whether a sync of `name` is under way.
    pub fn contains(&self, name: &str) -> (res: bool)
        ensures
            res == self@.contains(name@),
    {
        self.position(name).is_some()
    }

    /// How many syncs are under way.
    pub fn len(&self) -> (res: usize)
        requires
            self.wf(),
        ensures
            res == self@.len(),
    {
        proof {
            texts(self.names@).unique_seq_to_set();
        }
        self.names.len()
    }

    /// Marks `name` as syncing; `false` (and no change) when it already was.
    pub fn insert(&mut self, name: String) -> (added: bool)
        requires
            old(self).wf(),
        ensures
            final(self).wf(),
            added == !old(self)@.contains(name@),
            final(self)@ == old(self)@.insert(name@),
    {
        if self.contains(name.as_str()) {
            assert(self@ =~= old(self)@.insert(name@));
            false
        } else {
            let ghost n = name@;
            self.names.push(name);
            proof {
                assert(texts(self.names@) =~= texts(old(self).names@).push(n));
                texts(old(self).names@).lemma_push_to_set_commute(n);
                assert(texts(self.names@).no_duplicates()) by {
                    assert forall|a: int, b: int|
                        0 <= a < texts(self.names@).len() && 0 <= b < texts(self.names@).len() && a
                            != b implies texts(self.names@)[a] != texts(self.names@)[b] by {
                        if a == texts(old(self).names@).len() {
                            assert(old(self)@.contains(texts(old(self).names@)[b]));
                        } else if b == texts(old(self).names@).len() {
                            assert(old(self)@.contains(texts(old(self).names@)[a]));
                        }
                    }
                }
            }
            true
        }
    }

    /// Marks `name` as no longer syncing; says whether it was.
    pub fn remove(&mut self, name: &str) -> (removed: bool)
        requires
            old(self).wf(),
        ensures
            final(self).wf(),
            removed == old(self)@.contains(name@),
            final(self)@ == old(self)@.remove(name@),
    {
        match self.position(name) {
            Some(i) => {
                let ghost old_texts = texts(self.names@);
                let _ = self.names.remove(i);
                proof {
                    let new_texts = texts(self.names@);
                    assert(new_texts =~= old_texts.remove(i as int));
                    assert forall|x: Seq<char>| new_texts.to_set().contains(x) <==> old_texts.to_set().remove(
                        name@,
                    ).contains(x) by {
                        if new_texts.to_set().contains(x) {
                            let k = choose|k: int| 0 <= k < new_texts.len() && new_texts[k] == x;
                            let k2 = if k < i { k } else { k + 1 };
                            assert(old_texts[k2] == x);
                            assert(k2 != i);
                            assert(old_texts[i as int] == name@);
                            assert(x != name@);
                            assert(old_texts.contains(x));
                            assert(old_texts.to_set().contains(x));
                        }
                        if old_texts.to_set().remove(name@).contains(x) {
                            assert(old_texts.contains(x));
                            let k = choose|k: int| 0 <= k < old_texts.len() && old_texts[k] == x;
                            assert(old_texts[i as int] == name@);
                            assert(k != i);
                            let k2 = if k < i { k } else { k - 1 };
                            assert(new_texts[k2] == x);
                            assert(new_texts.contains(x));
                        }
                    }
                    assert(self@ =~= old(self)@.remove(name@));
                    assert(new_texts.no_duplicates()) by {
                        assert forall|a: int, b: int|
                            0 <= a < new_texts.len() && 0 <= b < new_texts.len() && a != b implies new_texts[a]
                                != new_texts[b] by {
                            let a2 = if a < i { a } else { a + 1 };
                            let b2 = if b < i { b } else { b + 1 };
                            assert(new_texts[a] == old_texts[a2]);
                            assert(new_texts[b] == old_texts[b2]);
                        }
                    }
                }
                true
            },
            None => {
                assert(self@ =~= old(self)@.remove(name@));
                false
            },
        }
    }
}


// ---- starting a sync ----

/// How a `sync_push` / `sync_pull` request was taken.
pub enum SyncStart {
    /// Not a push or pull, or no target name: nothing happens.
    Ignored,
    /// No target of that name: an error result goes to every client.
    UnknownTarget { direction: Direction, message: String },
    /// A sync of that target is under way: the request is dropped.
    AlreadyRunning,
    /// The sync starts: every client hears so, and rsync runs for `target`.
    Started { direction: Direction, target: SyncTarget },
}

/// The direction a push or pull request asks for.
pub open spec fn requested_direction(t: Option<Seq<char>>) -> Option<Direction> {
    match t {
        Some(t) => if t == "sync_push"@ {
            Some(Direction::Push)
        } else if t == "sync_pull"@ {
            Some(Direction::Pull)
        } else {
            None
        },
        None => None,
    }
}

/// The error text for a request naming no configured target.
pub open spec fn unknown_target_text(name: Seq<char>) -> Seq<char> {
    "Unknown target: "@ + name
}

/// What a push or pull request does, given the targets and the syncs under way.
pub open spec fn sync_start_spec(
    msg: Message,
    targets: Seq<SyncTarget>,
    before: Set<Seq<char>>,
    after: Set<Seq<char>>,
    res: SyncStart,
) -> bool {
    match (requested_direction(message_type(msg)), text_field(msg, "name"@)) {
        (Some(d), Some(n)) => if !has_target(targets, n) {
            &&& res matches SyncStart::UnknownTarget { direction, message }
            &&& direction == d
            &&& message@ == unknown_target_text(n)
            &&& after == before
        } else if before.contains(n) {
            res is AlreadyRunning && after == before
        } else {
            &&& res matches SyncStart::Started { direction, target }
            &&& direction == d
            &&& target == targets[first_named(targets, n)]
            &&& after == before.insert(n)
        },
        _ => res is Ignored && after == before,
    }
}

/// Takes a `sync_push` / `sync_pull` request: a target can have one sync under
/// way at a time, different targets any number.
pub fn initiate_sync(msg: &Message, syncing: &mut Syncing, targets: &Vec<SyncTarget>) -> (res: SyncStart)
    requires
        old(syncing).wf(),
    ensures
        final(syncing).wf(),
        sync_start_spec(*msg, targets@, old(syncing)@, final(syncing)@, res),
{
    let direction = match msg.text("type") {
        Some(t) => if text_eq(t.as_str(), "sync_push") {
            Direction::Push
        } else if text_eq(t.as_str(), "sync_pull") {
            Direction::Pull
        } else {
            return SyncStart::Ignored;
        },
        None => { return SyncStart::Ignored; },
    };
    let name = match msg.text("name") {
        Some(n) => n,
        None => { return SyncStart::Ignored; },
    };
    let target = match find_target(targets, name.as_str()) {
        Some(i) => targets[i].duplicate(),
        None => {
            let message = "Unknown target: ".to_owned().concat(name.as_str());
            return SyncStart::UnknownTarget { direction, message };
        },
    };
    if !syncing.insert(name) {
        assert(syncing@ =~= old(syncing)@);
        return SyncStart::AlreadyRunning;
    }
    SyncStart::Started { direction, target }
}

/// A sync has ended with `outcome` (its summary or its error): its target is
/// no longer syncing, and the result says whether the target's last-synced
/// time is to be recorded, which is so exactly when the sync succeeded.
pub fn finish_sync(syncing: &mut Syncing, name: &str, outcome: &Result<String, String>) -> (record_time: bool)
    requires
        old(syncing).wf(),
    ensures
        final(syncing).wf(),
        final(syncing)@ == old(syncing)@.remove(name@),
        record_time == outcome is Ok,
{
    let _ = syncing.remove(name);
    outcome.is_ok()
}

// ---- reading rsync's output ----

/// What `String::from_utf8_lossy` makes of some bytes.
pub uninterp spec fn lossy_utf8(bytes: Seq<u8>) -> Seq<char>;

/// Calls `String::from_utf8_lossy`. Claimed: the result is a function of the
/// bytes, and valid UTF-8 decodes to exactly its characters. How invalid
/// sequences are replaced is left unsaid.
#[verifier::external_body]
pub(crate) fn text_from_bytes(bytes: &[u8]) -> (res: String)
    ensures
        res@ == lossy_utf8(bytes@),
        vstd::utf8::valid_utf8(bytes@) ==> res@ == vstd::utf8::decode_utf8(bytes@),
{
    String::from_utf8_lossy(bytes).into_owned()
}

/// The result a finished rsync run reports: on success the last line of its
/// output (`"done"` when there is none), else its error output.
pub open spec fn outcome_of(success: bool, stdout: Seq<char>, stderr: Seq<char>) -> Result<Seq<char>, Seq<char>> {
    if success {
        let ls = lines(stdout);
        if ls.len() > 0 {
            Ok(ls.last())
        } else {
            Ok("done"@)
        }
    } else {
        Err(stderr)
    }
}

/// The summary or error of a finished rsync run.
pub fn sync_outcome(success: bool, stdout: &[u8], stderr: &[u8]) -> (res: Result<String, String>)
    ensures
        match (res, outcome_of(success, lossy_utf8(stdout@), lossy_utf8(stderr@))) {
            (Ok(a), Ok(b)) => a@ == b,
            (Err(a), Err(b)) => a@ == b,
            _ => false,
        },
{
    if success {
        let out = text_from_bytes(stdout);
        let mut ls = split_lines(out.as_str());
        match ls.pop() {
            Some(last) => Ok(last),
            None => Ok("done".to_owned()),
        }
    } else {
        Err(text_from_bytes(stderr))
    }
}

/// The error reported when rsync could not be started at all.
pub fn launch_failure(detail: &str) -> (res: String)
    ensures
        res@ == "Failed to execute rsync: "@ + detail@,
{
    "Failed to execute rsync: ".to_owned().concat(detail)
}

// ---- previewing a sync ----

/// A dry run's plan: which target, which way, and the rsync arguments.
pub struct PreviewPlan {
    pub name: String,
    pub direction: Direction,
    pub source: String,
    pub destination: String,
}

/// A preview request names a target to dry-run; `sync_push_preview` pushes,
/// anything else pulls.
pub open spec fn preview_plan_spec(msg: Message, targets: Seq<SyncTarget>, res: Option<PreviewPlan>) -> bool {
    let d = if message_type(msg) == Some("sync_push_preview"@) {
        Direction::Push
    } else {
        Direction::Pull
    };
    match text_field(msg, "name"@) {
        Some(n) => if has_target(targets, n) {
            &&& res matches Some(p)
            &&& p.name@ == n
            &&& p.direction == d
            &&& (p.source@, p.destination@) == sync_route(targets[first_named(targets, n)], d)
        } else {
            res is None
        },
        None => res is None,
    }
}

/// Plans the dry run that a `sync_push_preview` / `sync_pull_preview` request asks for.
pub fn preview_plan(msg: &Message, targets: &Vec<SyncTarget>) -> (res: Option<PreviewPlan>)
    ensures
        preview_plan_spec(*msg, targets@, res),
{
    let direction = match msg.text("type") {
        Some(t) => if text_eq(t.as_str(), "sync_push_preview") {
            Direction::Push
        } else {
            Direction::Pull
        },
        None => Direction::Pull,
    };
    let name = match msg.text("name") {
        Some(n) => n,
        None => { return None; },
    };
    match find_target(targets, name.as_str()) {
        Some(i) => {
            let (source, destination) = sync_paths(&targets[i], direction);
            Some(PreviewPlan { name, direction, source, destination })
        },
        None => None,
    }
}

/// One file a dry run would touch.
pub struct PreviewEntry {
    pub path: String,
    /// The file would be deleted (else changed).
    pub deleted: bool,
}

/// A line of dry-run output that names a file (not a header, a summary or empty).
pub open spec fn names_file(l: Seq<char>) -> bool {
    &&& !"sending"@.is_prefix_of(l)
    &&& !"receiving"@.is_prefix_of(l)
    &&& !"sent "@.is_prefix_of(l)
    &&& !"total "@.is_prefix_of(l)
    &&& l.len() > 0
}

/// The file a line names, and whether it would be deleted.
pub open spec fn preview_item(l: Seq<char>) -> (Seq<char>, bool) {
    if "deleting "@.is_prefix_of(l) {
        (l.skip("deleting "@.len() as int), true)
    } else {
        (l, false)
    }
}

/// The files that dry-run output lines name, in order.
pub open spec fn preview_of(ls: Seq<Seq<char>>) -> Seq<(Seq<char>, bool)>
    decreases ls.len(),
{
    if ls.len() == 0 {
        Seq::empty()
    } else if names_file(ls.last()) {
        preview_of(ls.drop_last()).push(preview_item(ls.last()))
    } else {
        preview_of(ls.drop_last())
    }
}

pub open spec fn entry_views(v: Seq<PreviewEntry>) -> Seq<(Seq<char>, bool)> {
    v.map_values(|e: PreviewEntry| (e.path@, e.deleted))
}

/// The files a dry run's output names.
pub fn preview_entries(output: &str) -> (res: Vec<PreviewEntry>)
    ensures
        entry_views(res@) == preview_of(lines(output@)),
{
    let ls = split_lines(output);
    let mut res: Vec<PreviewEntry> = Vec::new();
    let mut i: usize = 0;
    assert(texts(ls@).take(0) =~= Seq::<Seq<char>>::empty());
    while i < ls.len()
        invariant
            i <= ls.len(),
            texts(ls@) == lines(output@),
            entry_views(res@) == preview_of(texts(ls@).take(i as int)),
        decreases ls.len() - i,
    {
        let ghost l = texts(ls@)[i as int];
        proof {
            assert(texts(ls@).take(i + 1).drop_last() =~= texts(ls@).take(i as int));
        }
        let chars = chars_of(ls[i].as_str());
        let listed = !starts_with(&chars, "sending") && !starts_with(&chars, "receiving")
            && !starts_with(&chars, "sent ") && !starts_with(&chars, "total ") && chars.len() > 0;
        if listed {
            let ghost before = res@;
            let prefix = chars_of("deleting ");
            let entry = if starts_with(&chars, "deleting ") {
                PreviewEntry { path: text_from_chars(&chars, prefix.len(), chars.len()), deleted: true }
            } else {
                PreviewEntry { path: text_from_chars(&chars, 0, chars.len()), deleted: false }
            };
            proof {
                assert(chars@.subrange(0, chars.len() as int) =~= chars@);
                assert(chars@.subrange(prefix.len() as int, chars.len() as int) =~= chars@.skip(prefix.len() as int));
                assert((entry.path@, entry.deleted) == preview_item(l));
            }
            res.push(entry);
            assert(entry_views(res@) =~= entry_views(before).push(preview_item(l)));
        }
        i = i + 1;
    }
    assert(texts(ls@).take(i as int) =~= texts(ls@));
    res
}

/// The files a dry run reports; a failed run reports none.
pub fn preview_files(success: bool, stdout: &[u8]) -> (res: Vec<PreviewEntry>)
    ensures
        entry_views(res@) == (if success { preview_of(lines(lossy_utf8(stdout@))) } else { Seq::empty() }),
{
    if success {
        let text = text_from_bytes(stdout);
        preview_entries(text.as_str())
    } else {
        let res: Vec<PreviewEntry> = Vec::new();
        assert(entry_views(res@) =~= Seq::<(Seq<char>, bool)>::empty());
        res
    }
}


// ---- the sync messages ----

/// What the server does after a sync message.
pub enum SyncAction {
    /// Nothing.
    Nothing,
    /// Send the stored targets to the client that asked.
    SendList,
    /// The targets changed: store them and send them to every client.
    StoreList,
    /// Dry-run this plan and send the files it would touch to the client that asked.
    Preview(PreviewPlan),
    /// A push or pull request, taken as described.
    Start(SyncStart),
}

/// Whether a message type belongs to the sync service.
pub open spec fn is_sync_type(t: Seq<char>) -> bool {
    t == "sync_list"@ || t == "sync_save"@ || t == "sync_delete"@ || t == "sync_push"@
        || t == "sync_pull"@ || t == "sync_push_preview"@ || t == "sync_pull_preview"@
}

/// Whether `t` is one of the sync message types.
pub fn is_message_type(t: &str) -> (res: bool)
    ensures
        res == is_sync_type(t@),
{
    text_eq(t, "sync_list") || text_eq(t, "sync_save") || text_eq(t, "sync_delete")
        || text_eq(t, "sync_push") || text_eq(t, "sync_pull") || text_eq(t, "sync_push_preview")
        || text_eq(t, "sync_pull_preview")
}

/// What a sync message does to the stored targets and the syncs under way.
pub open spec fn sync_step_spec(
    msg: Message,
    before: Seq<SyncTarget>,
    after: Seq<SyncTarget>,
    running: Set<Seq<char>>,
    running_after: Set<Seq<char>>,
    res: SyncAction,
) -> bool {
    match message_type(msg) {
        Some(t) => if t == "sync_list"@ {
            res is SendList && after == before && running_after == running
        } else if t == "sync_save"@ {
            running_after == running && match msg.target {
                Some(target) => res is StoreList && after == saved_targets(before, target),
                None => res is Nothing && after == before,
            }
        } else if t == "sync_delete"@ {
            running_after == running && match text_field(msg, "name"@) {
                Some(n) => res is StoreList && after == without_target(before, n),
                None => res is Nothing && after == before,
            }
        } else if t == "sync_push_preview"@ || t == "sync_pull_preview"@ {
            &&& after == before
            &&& running_after == running
            &&& match res {
                SyncAction::Preview(p) => preview_plan_spec(msg, before, Some(p)),
                SyncAction::Nothing => preview_plan_spec(msg, before, None),
                _ => false,
            }
        } else if t == "sync_push"@ || t == "sync_pull"@ {
            &&& after == before
            &&& res matches SyncAction::Start(start)
            &&& sync_start_spec(msg, before, running, running_after, start)
        } else {
            res is Nothing && after == before && running_after == running
        },
        None => res is Nothing && after == before && running_after == running,
    }
}

/// Takes a sync message: `targets` are the stored targets, `syncing` the syncs under way.
pub fn handle_message(msg: &Message, targets: &mut Vec<SyncTarget>, syncing: &mut Syncing) -> (res: SyncAction)
    requires
        old(syncing).wf(),
    ensures
        final(syncing).wf(),
        sync_step_spec(*msg, old(targets)@, final(targets)@, old(syncing)@, final(syncing)@, res),
{
    let t = match msg.text("type") {
        Some(t) => t,
        None => { return SyncAction::Nothing; },
    };
    let t = t.as_str();
    if text_eq(t, "sync_list") {
        SyncAction::SendList
    } else if text_eq(t, "sync_save") {
        match &msg.target {
            Some(target) => {
                save_target(targets, target.duplicate());
                SyncAction::StoreList
            },
            None => SyncAction::Nothing,
        }
    } else if text_eq(t, "sync_delete") {
        match msg.text("name") {
            Some(n) => {
                delete_target(targets, n.as_str());
                SyncAction::StoreList
            },
            None => SyncAction::Nothing,
        }
    } else if text_eq(t, "sync_push_preview") || text_eq(t, "sync_pull_preview") {
        let plan = preview_plan(msg, targets);
        match plan {
            Some(p) => SyncAction::Preview(p),
            None => SyncAction::Nothing,
        }
    } else if text_eq(t, "sync_push") || text_eq(t, "sync_pull") {
        SyncAction::Start(initiate_sync(msg, syncing, targets))
    } else {
        SyncAction::Nothing
    }
}

} // verus!
