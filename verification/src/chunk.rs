//! The per-chunk state: template table, string pool, records, and the
//! raw event buffer awaiting template discovery.

use vstd::prelude::*;
use crate::event::MsgV;
use crate::event::SyslogMessage;
use crate::text::join_tokens;
use crate::text::tokenize;
use crate::text::tokens_of;
use crate::text::wild_count;
use crate::text::wild_str;
use crate::discover::CandS;
use crate::discover::build_cands;
use crate::discover::first_fit;
use crate::discover::lemma_build_cands_le;
use crate::discover::lemma_build_cands_member_bound;
use crate::discover::lemma_build_cands_members;
use crate::discover::lemma_first_fit;
use crate::discover::lemma_total_members_take;
use crate::discover::lemma_vars_le_wild_tokens;
use crate::discover::merge_toks;
use crate::discover::step_cands;
use crate::discover::total_members;
use crate::discover::sim_count;
use crate::discover::sim_ok;
use crate::discover::sim_pos;
use crate::discover::vars_of;

verus! {

/// A discovered template: a dense id paired with its space-joined
/// pattern string.
pub struct Template {
    pub id: u32,
    pub pattern: String,
}

impl View for Template {
    type V = (u32, Seq<char>);

    open spec fn view(&self) -> (u32, Seq<char>) {
        (self.id, self.pattern@)
    }
}

impl DeepView for Template {
    type V = (u32, Seq<char>);

    open spec fn deep_view(&self) -> (u32, Seq<char>) {
        self.view()
    }
}

/// One record per ingested event, produced at seal time.
pub struct LogRecord {
    pub timestamp: i64,
    pub priority: u8,
    pub hostname_id: Option<u32>,
    pub app_name_id: Option<u32>,
    pub procid_id: Option<u32>,
    pub msgid_id: Option<u32>,
    pub structured_data_id: Option<u32>,
    pub template_id: u32,
    pub variables: Vec<String>,
    pub is_rfc5424: bool,
}

/// The mathematical model of a record.
pub struct LogRecordV {
    pub timestamp: i64,
    pub priority: u8,
    pub hostname_id: Option<u32>,
    pub app_name_id: Option<u32>,
    pub procid_id: Option<u32>,
    pub msgid_id: Option<u32>,
    pub structured_data_id: Option<u32>,
    pub template_id: u32,
    pub variables: Seq<Seq<char>>,
    pub is_rfc5424: bool,
}

impl DeepView for LogRecord {
    type V = LogRecordV;

    open spec fn deep_view(&self) -> LogRecordV {
        self.view()
    }
}

impl View for LogRecord {
    type V = LogRecordV;

    open spec fn view(&self) -> LogRecordV {
        LogRecordV {
            timestamp: self.timestamp,
            priority: self.priority,
            hostname_id: self.hostname_id,
            app_name_id: self.app_name_id,
            procid_id: self.procid_id,
            msgid_id: self.msgid_id,
            structured_data_id: self.structured_data_id,
            template_id: self.template_id,
            variables: self.variables.deep_view(),
            is_rfc5424: self.is_rfc5424,
        }
    }
}

/// No two elements are equal.
pub open spec fn distinct_seq(s: Seq<Seq<char>>) -> bool {
    forall|i: int, j: int| 0 <= i < j < s.len() ==> s[i] != s[j]
}

/// First index holding `x`, if any.
pub open spec fn find_str(pool: Seq<Seq<char>>, x: Seq<char>) -> Option<int>
    decreases pool.len(),
{
    if pool.len() == 0 {
        None
    } else if pool[0] == x {
        Some(0)
    } else {
        match find_str(pool.skip(1), x) {
            Some(j) => Some(j + 1),
            None => None,
        }
    }
}

pub proof fn lemma_find_str(pool: Seq<Seq<char>>, x: Seq<char>)
    ensures
        match find_str(pool, x) {
            None => forall|k: int| 0 <= k < pool.len() ==> pool[k] != x,
            Some(j) => 0 <= j < pool.len() && pool[j] == x && (forall|k: int|
                0 <= k < j ==> pool[k] != x),
        },
    decreases pool.len(),
{
    if pool.len() > 0 && pool[0] != x {
        let rest = pool.skip(1);
        lemma_find_str(rest, x);
        match find_str(rest, x) {
            None => {
                assert forall|k: int| 0 <= k < pool.len() implies pool[k] != x by {
                    if k >= 1 {
                        assert(pool[k] == rest[k - 1]);
                    }
                }
            },
            Some(j) => {
                assert(pool[j + 1] == rest[j]);
                assert forall|k: int| 0 <= k < j + 1 implies pool[k] != x by {
                    if k >= 1 {
                        assert(pool[k] == rest[k - 1]);
                    }
                }
            },
        }
    }
}

/// The pool after interning an optional string: unchanged for `None` or
/// an already-present string, else extended by it.
pub open spec fn pool_after(pool: Seq<Seq<char>>, s: Option<Seq<char>>) -> Seq<Seq<char>> {
    match s {
        None => pool,
        Some(x) => if pool.contains(x) {
            pool
        } else {
            pool.push(x)
        },
    }
}

/// The id returned by interning an optional string.
pub open spec fn interned_id(pool: Seq<Seq<char>>, s: Option<Seq<char>>) -> Option<u32> {
    match s {
        None => None,
        Some(x) => match find_str(pool, x) {
            Some(j) => Some(j as u32),
            None => Some(pool.len() as u32),
        },
    }
}

/// An optional string id stays inside the pool.
pub open spec fn opt_id_wf(id: Option<u32>, pool_len: nat) -> bool {
    match id {
        None => true,
        Some(i) => (i as nat) < pool_len,
    }
}

/// Record integrity: the template resolves and the captured variables
/// do not exceed the pattern's placeholder slots.
pub open spec fn rec_wf(r: LogRecordV, tpls: Seq<Seq<char>>, pool_len: nat) -> bool {
    &&& (r.template_id as nat) < tpls.len()
    &&& opt_id_wf(r.hostname_id, pool_len)
    &&& opt_id_wf(r.app_name_id, pool_len)
    &&& opt_id_wf(r.procid_id, pool_len)
    &&& opt_id_wf(r.msgid_id, pool_len)
    &&& opt_id_wf(r.structured_data_id, pool_len)
    &&& r.variables.len() <= wild_count(tpls[r.template_id as int])
}

/// A chunk: the raw event buffer plus the template table, string pool
/// and record vector valid for this batch.  Pattern ids are dense: the
/// pattern with id `i` sits at index `i` of `templates`.
pub struct LogChunk {
    pub raw_messages: Vec<SyslogMessage>,
    pub templates: Vec<String>,
    pub string_pool: Vec<String>,
    pub records: Vec<LogRecord>,
    pub next_template_id: u32,
}

impl LogChunk {
    /// Well-formedness: dense ids, duplicate-free tables, and record
    /// integrity.
    pub open spec fn wf(&self) -> bool {
        &&& self.next_template_id as nat == self.templates@.len()
        &&& self.templates@.len() <= u32::MAX as nat
        &&& self.string_pool@.len() <= u32::MAX as nat
        &&& distinct_seq(self.templates.deep_view())
        &&& distinct_seq(self.string_pool.deep_view())
        &&& forall|k: int|
            0 <= k < self.records@.len() ==> rec_wf(
                #[trigger] self.records@[k]@,
                self.templates.deep_view(),
                self.string_pool.deep_view().len(),
            )
    }

    pub fn new() -> (r: Self)
        ensures
            r.wf(),
            r.raw_messages@.len() == 0,
            r.templates@.len() == 0,
            r.string_pool@.len() == 0,
            r.records@.len() == 0,
            r.next_template_id == 0,
    {
        Self::default()
    }

    /// Appends one event to the raw buffer; nothing else changes.
    pub fn add_message(&mut self, msg: SyslogMessage)
        ensures
            final(self).raw_messages@ == old(self).raw_messages@.push(msg),
            final(self).templates == old(self).templates,
            final(self).string_pool == old(self).string_pool,
            final(self).records == old(self).records,
            final(self).next_template_id == old(self).next_template_id,
    {
        self.raw_messages.push(msg);
    }

    /// Interns an optional header string into the pool, returning the
    /// existing dense id or minting the next one.
    fn intern_string(&mut self, s: &Option<String>) -> (r: Option<u32>)
        requires
            old(self).string_pool@.len() < u32::MAX as nat,
        ensures
            final(self).string_pool.deep_view() == pool_after(
                old(self).string_pool.deep_view(),
                s.deep_view(),
            ),
            r == interned_id(old(self).string_pool.deep_view(), s.deep_view()),
            opt_id_wf(r, final(self).string_pool.deep_view().len()),
            distinct_seq(old(self).string_pool.deep_view()) ==> distinct_seq(
                final(self).string_pool.deep_view(),
            ),
            final(self).raw_messages == old(self).raw_messages,
            final(self).templates == old(self).templates,
            final(self).records == old(self).records,
            final(self).next_template_id == old(self).next_template_id,
    {
        match s {
            None => None,
            Some(x) => {
                let ghost pool = self.string_pool.deep_view();
                let n = self.string_pool.len();
                let mut i: usize = 0;
                while i < n
                    invariant
                        i <= n,
                        n == pool.len(),
                        pool == self.string_pool.deep_view(),
                        forall|j: int| 0 <= j < i ==> pool[j] != x@,
                    decreases n - i,
                {
                    let hit = self.string_pool[i] == *x;
                    proof {
                        assert(pool[i as int] == self.string_pool@[i as int]@);
                    }
                    if hit {
                        proof {
                            lemma_find_str(pool, x@);
                            assert(pool[i as int] == x@);
                            assert(pool.contains(x@));
                            match find_str(pool, x@) {
                                Some(j) => {
                                    assert(j == i);
                                },
                                None => {
                                    assert(false);
                                },
                            }
                        }
                        return Some(i as u32);
                    }
                    i = i + 1;
                }
                proof {
                    lemma_find_str(pool, x@);
                    if pool.contains(x@) {
                        let w = choose|w: int| 0 <= w < pool.len() && pool[w] == x@;
                        assert(false);
                    }
                }
                let id = n as u32;
                self.string_pool.push(x.clone());
                proof {
                    assert(final(self).string_pool.deep_view() =~= pool.push(x@));
                }
                Some(id)
            },
        }
    }

    /// Interns a pattern into the template table, returning the existing
    /// dense id or minting the next one.
    fn intern_pattern(&mut self, pattern: String) -> (r: u32)
        requires
            old(self).templates@.len() < u32::MAX as nat,
            old(self).next_template_id as nat == old(self).templates@.len(),
        ensures
            final(self).templates.deep_view() == tpl_after(
                old(self).templates.deep_view(),
                pattern@,
            ),
            r == tpl_id(old(self).templates.deep_view(), pattern@),
            (r as nat) < final(self).templates.deep_view().len(),
            final(self).templates.deep_view()[r as int] == pattern@,
            final(self).next_template_id as nat == final(self).templates@.len(),
            distinct_seq(old(self).templates.deep_view()) ==> distinct_seq(
                final(self).templates.deep_view(),
            ),
            final(self).raw_messages == old(self).raw_messages,
            final(self).string_pool == old(self).string_pool,
            final(self).records == old(self).records,
    {
        let ghost tpls = self.templates.deep_view();
        let n = self.templates.len();
        let mut i: usize = 0;
        while i < n
            invariant
                i <= n,
                n == tpls.len(),
                tpls == self.templates.deep_view(),
                forall|j: int| 0 <= j < i ==> tpls[j] != pattern@,
            decreases n - i,
        {
            let hit = self.templates[i] == pattern;
            proof {
                assert(tpls[i as int] == self.templates@[i as int]@);
            }
            if hit {
                proof {
                    lemma_find_str(tpls, pattern@);
                    assert(tpls[i as int] == pattern@);
                    assert(tpls.contains(pattern@));
                    match find_str(tpls, pattern@) {
                        Some(j) => {
                            assert(j == i);
                        },
                        None => {
                            assert(false);
                        },
                    }
                }
                return i as u32;
            }
            i = i + 1;
        }
        proof {
            lemma_find_str(tpls, pattern@);
            if tpls.contains(pattern@) {
                let w = choose|w: int| 0 <= w < tpls.len() && tpls[w] == pattern@;
                assert(false);
            }
        }
        let id = n as u32;
        self.templates.push(pattern);
        self.next_template_id = id + 1;
        proof {
            assert(final(self).templates.deep_view() =~= tpls.push(pattern@));
        }
        id
    }

    /// Imports an externally learned pattern: idempotent; assigns the
    /// next dense id if the pattern is absent, else a no-op.
    pub fn import_template(&mut self, pattern: String)
        requires
            old(self).wf(),
            old(self).templates@.len() < u32::MAX as nat,
        ensures
            final(self).wf(),
            final(self).templates.deep_view() == tpl_after(
                old(self).templates.deep_view(),
                pattern@,
            ),
            final(self).raw_messages == old(self).raw_messages,
            final(self).string_pool == old(self).string_pool,
            final(self).records == old(self).records,
    {
        let ghost tpls = self.templates.deep_view();
        let _ = self.intern_pattern(pattern);
        proof {
            let tpls2 = self.templates.deep_view();
            assert(forall|k: int|
                0 <= k < tpls.len() ==> tpls2[k] == tpls[k]);
            assert(forall|k: int|
                0 <= k < self.records@.len() ==> rec_wf(
                    #[trigger] self.records@[k]@,
                    tpls2,
                    self.string_pool.deep_view().len(),
                ));
        }
    }
}

impl Default for LogChunk {
    fn default() -> (r: Self)
        ensures
            r.wf(),
            r.raw_messages@.len() == 0,
            r.templates@.len() == 0,
            r.string_pool@.len() == 0,
            r.records@.len() == 0,
            r.next_template_id == 0,
    {
        LogChunk {
            raw_messages: Vec::new(),
            templates: Vec::new(),
            string_pool: Vec::new(),
            records: Vec::new(),
            next_template_id: 0,
        }
    }
}

/// Interning uniqueness and injectivity: interning never removes a
/// string, keeps a duplicate-free pool duplicate-free, and the id it
/// hands back always resolves to the interned string.
pub proof fn lemma_interning_injective(pool: Seq<Seq<char>>, s: Option<Seq<char>>)
    requires
        distinct_seq(pool),
        pool.len() < u32::MAX,
    ensures
        distinct_seq(pool_after(pool, s)),
        pool.is_prefix_of(pool_after(pool, s)),
        s is Some ==> interned_id(pool, s) is Some,
        s is Some ==> (interned_id(pool, s)->0 as int) < pool_after(pool, s).len(),
        s is Some ==> pool_after(pool, s)[interned_id(pool, s)->0 as int] == s->0,
{
    match s {
        None => {
            assert(pool =~= pool.subrange(0, pool.len() as int));
        },
        Some(x) => {
            lemma_find_str(pool, x);
            if pool.contains(x) {
                match find_str(pool, x) {
                    Some(j) => {
                        assert(pool =~= pool.subrange(0, pool.len() as int));
                    },
                    None => {
                        let w = choose|w: int| 0 <= w < pool.len() && pool[w] == x;
                        assert(false);
                    },
                }
            } else {
                let ext = pool.push(x);
                assert(pool =~= ext.subrange(0, pool.len() as int));
                assert forall|i: int, j: int| 0 <= i < j < ext.len() implies ext[i] != ext[j] by {
                    if j == pool.len() {
                        assert(ext[j] == x);
                        assert(ext[i] == pool[i]);
                        if pool[i] == x {
                            assert(pool.contains(x));
                        }
                    } else {
                        assert(ext[i] == pool[i] && ext[j] == pool[j]);
                    }
                }
                match find_str(pool, x) {
                    Some(j) => {
                        assert(pool.contains(x));
                        assert(false);
                    },
                    None => {
                        assert(ext[pool.len() as int] == x);
                    },
                }
            }
        },
    }
}

/// Dense ids: in a well-formed chunk every record's template id
/// resolves into the template table, and every header string id into
/// the string pool.
pub proof fn lemma_dense_ids(c: LogChunk)
    requires
        c.wf(),
    ensures
        forall|k: int|
            0 <= k < c.records@.len() ==> (#[trigger] c.records@[k]@.template_id as int)
                < c.templates@.len(),
        forall|k: int|
            0 <= k < c.records@.len() ==> {
                let r = #[trigger] c.records@[k]@;
                &&& opt_id_wf(r.hostname_id, c.string_pool@.len() as nat)
                &&& opt_id_wf(r.app_name_id, c.string_pool@.len() as nat)
                &&& opt_id_wf(r.procid_id, c.string_pool@.len() as nat)
                &&& opt_id_wf(r.msgid_id, c.string_pool@.len() as nat)
                &&& opt_id_wf(r.structured_data_id, c.string_pool@.len() as nat)
            },
{
    assert(c.templates.deep_view().len() == c.templates@.len());
    assert(c.string_pool.deep_view().len() == c.string_pool@.len());
    assert forall|k: int| 0 <= k < c.records@.len() implies (
    #[trigger] c.records@[k]@.template_id as int) < c.templates@.len() by {
        assert(rec_wf(c.records@[k]@, c.templates.deep_view(), c.string_pool.deep_view().len()));
    }
    assert forall|k: int| 0 <= k < c.records@.len() implies {
        let r = #[trigger] c.records@[k]@;
        &&& opt_id_wf(r.hostname_id, c.string_pool@.len() as nat)
        &&& opt_id_wf(r.app_name_id, c.string_pool@.len() as nat)
        &&& opt_id_wf(r.procid_id, c.string_pool@.len() as nat)
        &&& opt_id_wf(r.msgid_id, c.string_pool@.len() as nat)
        &&& opt_id_wf(r.structured_data_id, c.string_pool@.len() as nat)
    } by {
        assert(rec_wf(c.records@[k]@, c.templates.deep_view(), c.string_pool.deep_view().len()));
    }
}

/// What a seal announces: `finish_and_process` returns the table's
/// suffix past its starting length.  Over a fresh table that is every
/// pattern the seal minted, with dense ids from zero; when discovery
/// found every pattern already present — the table did not grow —
/// nothing is announced.
pub proof fn lemma_seal_announcements(start: int, tplsF: Seq<Seq<char>>)
    requires
        0 <= start <= tplsF.len(),
    ensures
        start == 0 ==> tplsF.skip(start) == tplsF,
        start == tplsF.len() ==> tplsF.skip(start) == Seq::<Seq<char>>::empty(),
{
    if start == 0 {
        assert(tplsF.skip(0) =~= tplsF);
    }
    if start == tplsF.len() {
        assert(tplsF.skip(start) =~= Seq::<Seq<char>>::empty());
    }
}

/// The template table after interning a pattern.
pub open spec fn tpl_after(tpls: Seq<Seq<char>>, p: Seq<char>) -> Seq<Seq<char>> {
    if tpls.contains(p) {
        tpls
    } else {
        tpls.push(p)
    }
}

/// The id assigned to an interned pattern.
pub open spec fn tpl_id(tpls: Seq<Seq<char>>, p: Seq<char>) -> u32 {
    match find_str(tpls, p) {
        Some(j) => j as u32,
        None => tpls.len() as u32,
    }
}

impl LogChunk {
    /// Whether the event's tokens fit the candidate: equal length and
    /// at least half the positions matching or already widened.
    pub fn is_similar(&self, template: &Vec<String>, tokens: &Vec<String>) -> (r: bool)
        ensures
            r == sim_ok(template.deep_view(), tokens.deep_view()),
    {
        let ghost c = template.deep_view();
        let ghost t = tokens.deep_view();
        if template.len() != tokens.len() {
            return false;
        }
        if template.len() == 0 {
            return true;
        }
        let wildtok = wild_str();
        let n = template.len();
        let mut simc: usize = 0;
        let mut i: usize = 0;
        while i < n
            invariant
                i <= n,
                simc <= i,
                simc == sim_count(c, t, i as int),
            decreases n - i,
        {
            let hit = template[i] == tokens[i] || template[i] == wildtok;
            proof {
                assert(c[i as int] == template@[i as int]@);
                assert(t[i as int] == tokens@[i as int]@);
                assert(hit == sim_pos(c, t, i as int));
            }
            if hit {
                simc = simc + 1;
            }
            i = i + 1;
        }
        simc >= n - simc
    }

    /// Widens the candidate in place: positions that differ from the
    /// event's tokens become the placeholder.
    pub fn merge_into_template(&self, template: &mut Vec<String>, tokens: &Vec<String>)
        requires
            old(template)@.len() == tokens@.len(),
        ensures
            final(template).deep_view() == merge_toks(old(template).deep_view(), tokens.deep_view()),
    {
        let ghost c = old(template).deep_view();
        let ghost t = tokens.deep_view();
        let wildtok = wild_str();
        let n = template.len();
        let mut i: usize = 0;
        while i < n
            invariant
                i <= n,
                template@.len() == n,
                forall|j: int| 0 <= j < i ==> template.deep_view()[j] == merge_toks(c, t)[j],
                forall|j: int| i <= j < n ==> template.deep_view()[j] == c[j],
            decreases n - i,
        {
            let differs = !(template[i] == tokens[i] || template[i] == wildtok);
            proof {
                assert(template.deep_view()[i as int] == template@[i as int]@);
                assert(t[i as int] == tokens@[i as int]@);
            }
            if differs {
                template.set(i, wildtok.clone());
            }
            proof {
                assert(template.deep_view()[i as int] == template@[i as int]@);
                assert(template.deep_view()[i as int] == merge_toks(c, t)[i as int]);
            }
            i = i + 1;
        }
        proof {
            assert(final(template).deep_view() =~= merge_toks(c, t));
        }
    }
}

/// Clones an optional header string.
fn clone_opt_string(s: &Option<String>) -> (r: Option<String>)
    ensures
        r.deep_view() == s.deep_view(),
{
    match s {
        None => None,
        Some(x) => Some(x.clone()),
    }
}

impl LogChunk {
    /// Runs greedy first-fit over one token-count bucket: the result is
    /// exactly `build_cands` of the bucket's (index, tokens) pairs.
    fn fit_bucket(&self, indices: &Vec<usize>) -> (r: Vec<(Vec<String>, Vec<usize>)>)
        requires
            forall|k: int|
                0 <= k < indices@.len() ==> (#[trigger] indices@[k] as int)
                    < self.raw_messages@.len(),
        ensures
            r.deep_view() == build_cands(group_of(indices@, self.raw_messages.deep_view())),
    {
        let ghost msgs = self.raw_messages.deep_view();
        let mut group_templates: Vec<(Vec<String>, Vec<usize>)> = Vec::new();
        let mut k: usize = 0;
        proof {
            assert(group_of(indices@.take(0), msgs) =~= Seq::<(usize, Seq<Seq<char>>)>::empty());
            assert(group_templates.deep_view() =~= Seq::<CandS>::empty());
        }
        while k < indices.len()
            invariant
                k <= indices@.len(),
                group_templates.deep_view() == build_cands(group_of(indices@.take(k as int), msgs)),
            decreases indices@.len() - k,
        {
            let idx = indices[k];
            let tokens = tokenize(self.raw_messages[idx].message.as_str());
            let ghost t = tokens.deep_view();
            proof {
                assert(self.raw_messages@[idx as int].deep_view() == msgs[idx as int]);
                assert(t == tokens_of(msgs[idx as int].message));
            }
            let ghost cands = group_templates.deep_view();
            let m = group_templates.len();
            let mut fit: usize = m;
            let mut j: usize = 0;
            while j < m
                invariant
                    j <= m,
                    m == group_templates@.len(),
                    cands == group_templates.deep_view(),
                    t == tokens.deep_view(),
                    fit == m || fit < j,
                    fit == m ==> forall|q: int| 0 <= q < j ==> !sim_ok(#[trigger] cands[q].0, t),
                    fit < m ==> sim_ok(cands[fit as int].0, t) && (forall|q: int|
                        0 <= q < fit ==> !sim_ok(#[trigger] cands[q].0, t)),
                decreases m - j,
            {
                if fit == m {
                    let simres = self.is_similar(&group_templates[j].0, &tokens);
                    proof {
                        assert(cands[j as int].0 == group_templates@[j as int].0.deep_view());
                    }
                    if simres {
                        fit = j;
                    }
                }
                j = j + 1;
            }
            proof {
                lemma_first_fit(cands, t);
                match first_fit(cands, t) {
                    Some(j0) => {
                        assert(fit < m);
                        assert(j0 == fit);
                    },
                    None => {
                        assert(fit == m);
                    },
                }
            }
            if fit < group_templates.len() {
                let (mut ctoks, mut members) = group_templates.remove(fit);
                proof {
                    assert(ctoks.deep_view() == cands[fit as int].0);
                    assert(members.deep_view() =~= cands[fit as int].1);
                    assert(ctoks@.len() == tokens@.len());
                }
                self.merge_into_template(&mut ctoks, &tokens);
                members.push(idx);
                group_templates.insert(fit, (ctoks, members));
                proof {
                    let merged = (merge_toks(cands[fit as int].0, t), cands[
                        fit as int
                    ].1.push(idx));
                    assert(members.deep_view() =~= cands[fit as int].1.push(idx));
                    assert(group_templates.deep_view() =~~= cands.update(fit as int, merged));
                    assert(group_templates.deep_view() == step_cands(cands, idx, t));
                }
            } else {
                let mut members: Vec<usize> = Vec::new();
                members.push(idx);
                group_templates.push((tokens, members));
                proof {
                    assert(members.deep_view() =~= seq![idx]);
                    assert(group_templates.deep_view() =~~= cands.push((t, seq![idx])));
                    assert(group_templates.deep_view() == step_cands(cands, idx, t));
                }
            }
            proof {
                let pre = group_of(indices@.take(k as int), msgs);
                let cur = group_of(indices@.take(k + 1), msgs);
                assert(cur.drop_last() =~= pre);
                assert(cur.last() == (idx, t));
                assert(build_cands(cur) == step_cands(cands, idx, t));
            }
            k = k + 1;
        }
        proof {
            assert(indices@.take(indices@.len() as int) =~= indices@);
        }
        group_templates
    }

    /// Captures the variables of one event: its tokens under the
    /// candidate's placeholder slots, in order.
    fn extract_variables(&self, ctoks: &Vec<String>, idx: usize) -> (r: Vec<String>)
        requires
            (idx as int) < self.raw_messages@.len(),
        ensures
            r.deep_view() == vars_of(
                ctoks.deep_view(),
                tokens_of(self.raw_messages.deep_view()[idx as int].message),
            ),
    {
        let ghost cF = ctoks.deep_view();
        let tokens_m = tokenize(self.raw_messages[idx].message.as_str());
        let ghost tm = tokens_m.deep_view();
        proof {
            assert(self.raw_messages@[idx as int].deep_view() == self.raw_messages.deep_view()[
                idx as int
            ]);
            assert(tm == tokens_of(self.raw_messages.deep_view()[idx as int].message));
        }
        let wildtok = wild_str();
        let cn = ctoks.len();
        let mut variables: Vec<String> = Vec::new();
        proof {
            assert(vars_of(cF.take(0), tm) =~= Seq::<Seq<char>>::empty());
            assert(variables.deep_view() =~= Seq::<Seq<char>>::empty());
        }
        let mut vi: usize = 0;
        while vi < cn
            invariant
                vi <= cn,
                cn == cF.len(),
                tm == tokens_m.deep_view(),
                wildtok@ == crate::text::wild(),
                variables.deep_view() == vars_of(cF.take(vi as int), tm),
            decreases cn - vi,
        {
            let iswild = ctoks[vi] == wildtok;
            proof {
                assert(cF[vi as int] == ctoks@[vi as int]@);
            }
            if iswild && vi < tokens_m.len() {
                variables.push(tokens_m[vi].clone());
                proof {
                    assert(tm[vi as int] == tokens_m@[vi as int]@);
                }
            }
            proof {
                let pre = cF.take(vi as int);
                let cur = cF.take(vi + 1);
                assert(cur.drop_last() =~= pre);
                assert(cur.last() == cF[vi as int]);
                assert(cur.len() - 1 == vi);
                assert(variables.deep_view() =~= vars_of(cur, tm));
            }
            vi = vi + 1;
        }
        proof {
            assert(cF.take(cn as int) =~= cF);
        }
        variables
    }

    /// Materialises the record of one candidate member: captures its
    /// variables, interns its header strings in field order, and
    /// appends the record.
    fn emit_member(&mut self, ctoks: &Vec<String>, idx: usize, tid: u32)
        requires
            (idx as int) < old(self).raw_messages@.len(),
            old(self).string_pool@.len() + 5 <= u32::MAX as nat,
            (tid as nat) < old(self).templates@.len(),
            old(self).templates.deep_view()[tid as int] == join_tokens(ctoks.deep_view()),
            distinct_seq(old(self).string_pool.deep_view()),
            forall|q: int|
                0 <= q < old(self).records@.len() ==> rec_wf(
                    #[trigger] old(self).records@[q]@,
                    old(self).templates.deep_view(),
                    old(self).string_pool.deep_view().len(),
                ),
        ensures
            final(self).raw_messages == old(self).raw_messages,
            final(self).templates == old(self).templates,
            final(self).next_template_id == old(self).next_template_id,
            ({
                let m = old(self).raw_messages.deep_view()[idx as int];
                let out = member_rec(
                    m,
                    ctoks.deep_view(),
                    tid,
                    old(self).string_pool.deep_view(),
                );
                &&& final(self).string_pool.deep_view() == out.1
                &&& final(self).records@.len() == old(self).records@.len() + 1
                &&& (forall|q: int|
                    0 <= q < old(self).records@.len() ==> final(self).records@[q] == old(
                        self,
                    ).records@[q])
                &&& rec_matches(final(self).records@.last()@, out.0)
            }),
            old(self).string_pool.deep_view().is_prefix_of(final(self).string_pool.deep_view()),
            final(self).string_pool@.len() <= old(self).string_pool@.len() + 5,
            distinct_seq(final(self).string_pool.deep_view()),
            forall|q: int|
                0 <= q < final(self).records@.len() ==> rec_wf(
                    #[trigger] final(self).records@[q]@,
                    final(self).templates.deep_view(),
                    final(self).string_pool.deep_view().len(),
                ),
    {
        let ghost msgs = old(self).raw_messages.deep_view();
        let ghost m = msgs[idx as int];
        let ghost cF = ctoks.deep_view();
        let ghost pool1 = old(self).string_pool.deep_view();
        let variables = self.extract_variables(ctoks, idx);
        let host = clone_opt_string(&self.raw_messages[idx].hostname);
        let app = clone_opt_string(&self.raw_messages[idx].app_name);
        let procid = clone_opt_string(&self.raw_messages[idx].procid);
        let msgid = clone_opt_string(&self.raw_messages[idx].msgid);
        let sd = clone_opt_string(&self.raw_messages[idx].structured_data);
        proof {
            assert(self.raw_messages@[idx as int].deep_view() == m);
            assert(host.deep_view() == m.hostname);
            assert(app.deep_view() == m.app_name);
            assert(procid.deep_view() == m.procid);
            assert(msgid.deep_view() == m.msgid);
            assert(sd.deep_view() == m.structured_data);
            assert(variables.deep_view() == vars_of(cF, tokens_of(m.message)));
        }
        let hostname_id = self.intern_string(&host);
        let app_name_id = self.intern_string(&app);
        let procid_id = self.intern_string(&procid);
        let msgid_id = self.intern_string(&msgid);
        let structured_data_id = self.intern_string(&sd);
        let ts: i64 = match self.raw_messages[idx].timestamp {
            Some(v) => v,
            None => now_millis(),
        };
        let rec = LogRecord {
            timestamp: ts,
            priority: self.raw_messages[idx].priority,
            hostname_id,
            app_name_id,
            procid_id,
            msgid_id,
            structured_data_id,
            template_id: tid,
            variables,
            is_rfc5424: self.raw_messages[idx].is_rfc5424,
        };
        proof {
            let out = member_rec(m, cF, tid, pool1);
            assert(self.string_pool.deep_view() == out.1);
            assert(rec_matches(rec@, out.0));
            lemma_vars_le_wild_tokens(cF, tokens_of(m.message));
            crate::text::lemma_wild_tokens_le_count(cF);
            assert(rec@.variables.len() <= wild_count(
                self.templates.deep_view()[tid as int],
            ));
            assert(rec_wf(rec@, self.templates.deep_view(), self.string_pool.deep_view().len()));
        }
        self.records.push(rec);
    }

    /// Interns one candidate's pattern and materialises its members'
    /// records in insertion order.
    fn emit_candidate(&mut self, ctoks: &Vec<String>, members: &Vec<usize>)
        requires
            forall|b: int|
                0 <= b < members@.len() ==> (#[trigger] members@[b] as int) < old(
                    self,
                ).raw_messages@.len(),
            old(self).templates@.len() < u32::MAX as nat,
            old(self).string_pool@.len() + 5 * members@.len() <= u32::MAX as nat,
            old(self).next_template_id as nat == old(self).templates@.len(),
            distinct_seq(old(self).templates.deep_view()),
            distinct_seq(old(self).string_pool.deep_view()),
            forall|q: int|
                0 <= q < old(self).records@.len() ==> rec_wf(
                    #[trigger] old(self).records@[q]@,
                    old(self).templates.deep_view(),
                    old(self).string_pool.deep_view().len(),
                ),
        ensures
            final(self).raw_messages == old(self).raw_messages,
            final(self).next_template_id as nat == final(self).templates@.len(),
            ({
                let msgs = old(self).raw_messages.deep_view();
                let pat = join_tokens(ctoks.deep_view());
                let tid = tpl_id(old(self).templates.deep_view(), pat);
                let inner = members_recs(
                    ctoks.deep_view(),
                    members.deep_view(),
                    msgs,
                    tid,
                    old(self).string_pool.deep_view(),
                );
                &&& final(self).templates.deep_view() == tpl_after(
                    old(self).templates.deep_view(),
                    pat,
                )
                &&& final(self).string_pool.deep_view() == inner.1
                &&& final(self).records@.len() == old(self).records@.len() + members@.len()
                &&& inner.0.len() == members@.len()
                &&& (forall|q: int|
                    0 <= q < old(self).records@.len() ==> final(self).records@[q] == old(
                        self,
                    ).records@[q])
                &&& (forall|q: int|
                    0 <= q < members@.len() ==> rec_matches(
                        #[trigger] final(self).records@[old(self).records@.len() + q]@,
                        inner.0[q],
                    ))
            }),
            old(self).templates.deep_view().is_prefix_of(final(self).templates.deep_view()),
            old(self).string_pool.deep_view().is_prefix_of(final(self).string_pool.deep_view()),
            final(self).templates@.len() <= old(self).templates@.len() + 1,
            final(self).string_pool@.len() <= old(self).string_pool@.len() + 5 * members@.len(),
            distinct_seq(final(self).templates.deep_view()),
            distinct_seq(final(self).string_pool.deep_view()),
            forall|q: int|
                0 <= q < final(self).records@.len() ==> rec_wf(
                    #[trigger] final(self).records@[q]@,
                    final(self).templates.deep_view(),
                    final(self).string_pool.deep_view().len(),
                ),
    {
        let ghost msgs = old(self).raw_messages.deep_view();
        let ghost cF = ctoks.deep_view();
        let ghost membersF = members.deep_view();
        let ghost tplsA = old(self).templates.deep_view();
        let ghost poolA = old(self).string_pool.deep_view();
        let ghost recsA = old(self).records@;
        let pattern = crate::text::join(ctoks);
        let ghost patv = join_tokens(cF);
        let tid = self.intern_pattern(pattern);
        let ghost tplsB = self.templates.deep_view();
        proof {
            assert(membersF =~= members@);
            assert(tplsB == tpl_after(tplsA, patv));
            assert(tid == tpl_id(tplsA, patv));
            assert(tplsB[tid as int] == patv);
            assert(tplsA.is_prefix_of(tplsB));
            assert forall|q: int| 0 <= q < self.records@.len() implies rec_wf(
                #[trigger] self.records@[q]@,
                tplsB,
                self.string_pool.deep_view().len(),
            ) by {
                assert(rec_wf(self.records@[q]@, tplsA, self.string_pool.deep_view().len()));
                assert(tplsB[self.records@[q]@.template_id as int] == tplsA[self.records@[
                    q
                ]@.template_id as int]);
            }
            assert(members_recs(cF, membersF.take(0), msgs, tid, poolA).0 =~= Seq::<
                SealRec,
            >::empty());
            assert(membersF.take(0) =~= Seq::<usize>::empty());
        }
        let nm = members.len();
        let mut mi: usize = 0;
        while mi < nm
            invariant
                mi <= nm,
                nm == membersF.len(),
                membersF == members.deep_view(),
                membersF =~= members@,
                cF == ctoks.deep_view(),
                msgs == old(self).raw_messages.deep_view(),
                self.raw_messages == old(self).raw_messages,
                self.templates.deep_view() == tplsB,
                self.templates@.len() == tplsB.len(),
                self.next_template_id as nat == self.templates@.len(),
                (tid as nat) < tplsB.len(),
                tplsB[tid as int] == patv,
                patv == join_tokens(cF),
                distinct_seq(self.string_pool.deep_view()),
                poolA.is_prefix_of(self.string_pool.deep_view()),
                self.string_pool@.len() <= poolA.len() + 5 * mi,
                poolA.len() + 5 * membersF.len() <= u32::MAX as nat,
                forall|q: int|
                    0 <= q < self.records@.len() ==> rec_wf(
                        #[trigger] self.records@[q]@,
                        tplsB,
                        self.string_pool.deep_view().len(),
                    ),
                ({
                    let inner = members_recs(cF, membersF.take(mi as int), msgs, tid, poolA);
                    &&& self.string_pool.deep_view() == inner.1
                    &&& inner.0.len() == mi
                    &&& self.records@.len() == recsA.len() + mi
                    &&& (forall|q: int| 0 <= q < recsA.len() ==> self.records@[q] == recsA[q])
                    &&& (forall|q: int|
                        0 <= q < mi ==> rec_matches(
                            #[trigger] self.records@[recsA.len() + q]@,
                            inner.0[q],
                        ))
                }),
            decreases nm - mi,
        {
            let ghost poolM = self.string_pool.deep_view();
            let ghost innerA = members_recs(cF, membersF.take(mi as int), msgs, tid, poolA);
            let idx = members[mi];
            proof {
                assert(idx == membersF[mi as int]);
            }
            self.emit_member(ctoks, idx, tid);
            proof {
                let ghost mv = msgs[idx as int];
                let pre = membersF.take(mi as int);
                let cur = membersF.take(mi + 1);
                assert(cur.drop_last() =~= pre);
                assert(cur.last() == membersF[mi as int]);
                let inner2 = members_recs(cF, cur, msgs, tid, poolA);
                assert(inner2.0 == innerA.0.push(member_rec(mv, cF, tid, poolM).0));
                assert(inner2.1 == member_rec(mv, cF, tid, poolM).1);
                assert(self.records@.last() == self.records@[recsA.len() + mi]);
            }
            mi = mi + 1;
        }
        proof {
            assert(membersF.take(nm as int) =~= membersF);
        }
    }

    /// Runs greedy first-fit discovery over one token-count bucket and
    /// materialises its records: the candidate list is exactly
    /// `build_cands` of the bucket, and the table, pool and appended
    /// records are exactly `group_recs` of those candidates.
    fn process_group(&mut self, indices: &Vec<usize>)
        requires
            old(self).wf(),
            forall|k: int|
                0 <= k < indices@.len() ==> (#[trigger] indices@[k] as int) < old(
                    self,
                ).raw_messages@.len(),
            old(self).string_pool@.len() + 5 * indices@.len() <= u32::MAX as nat,
            old(self).templates@.len() + indices@.len() <= u32::MAX as nat,
        ensures
            final(self).wf(),
            final(self).raw_messages == old(self).raw_messages,
            old(self).templates.deep_view().is_prefix_of(final(self).templates.deep_view()),
            old(self).string_pool.deep_view().is_prefix_of(final(self).string_pool.deep_view()),
            ({
                let msgs = old(self).raw_messages.deep_view();
                let cands = build_cands(group_of(indices@, msgs));
                let out = group_recs(
                    cands,
                    msgs,
                    old(self).templates.deep_view(),
                    old(self).string_pool.deep_view(),
                );
                &&& final(self).templates.deep_view() == out.1
                &&& final(self).string_pool.deep_view() == out.2
                &&& final(self).records@.len() == old(self).records@.len() + out.0.len()
                &&& out.0.len() == indices@.len()
                &&& (forall|q: int|
                    0 <= q < old(self).records@.len() ==> final(self).records@[q] == old(
                        self,
                    ).records@[q])
                &&& (forall|q: int|
                    0 <= q < out.0.len() ==> rec_matches(
                        #[trigger] final(self).records@[old(self).records@.len() + q]@,
                        out.0[q],
                    ))
            }),
    {
        let ghost msgs = old(self).raw_messages.deep_view();
        let ghost tpls0 = old(self).templates.deep_view();
        let ghost pool0 = old(self).string_pool.deep_view();
        let ghost nrec0 = old(self).records@.len() as int;
        let ghost gs = group_of(indices@, msgs);
        let ghost recsP = old(self).records@;

        let cands_vec = self.fit_bucket(indices);
        let ghost candsf = build_cands(gs);
        proof {
            assert(cands_vec.deep_view() == candsf);
            lemma_build_cands_members(gs);
            lemma_build_cands_le(gs);
            lemma_build_cands_member_bound(gs, old(self).raw_messages@.len() as int);
            assert(total_members(candsf) == indices@.len());
            assert(candsf.take(0) =~= Seq::<CandS>::empty());
        }
        let mut ci: usize = 0;
        while ci < cands_vec.len()
            invariant
                ci <= cands_vec@.len(),
                cands_vec.deep_view() == candsf,
                candsf == build_cands(gs),
                candsf.len() == cands_vec@.len(),
                total_members(candsf) == indices@.len(),
                gs == group_of(indices@, msgs),
                msgs == old(self).raw_messages.deep_view(),
                self.raw_messages == old(self).raw_messages,
                self.next_template_id as nat == self.templates@.len(),
                self.templates@.len() <= tpls0.len() + ci,
                tpls0.len() + indices@.len() <= u32::MAX as nat,
                pool0.len() + 5 * indices@.len() <= u32::MAX as nat,
                distinct_seq(self.templates.deep_view()),
                distinct_seq(self.string_pool.deep_view()),
                tpls0.is_prefix_of(self.templates.deep_view()),
                pool0.is_prefix_of(self.string_pool.deep_view()),
                forall|a: int, b: int|
                    0 <= a < candsf.len() && 0 <= b < candsf[a].1.len() ==> (
                #[trigger] candsf[a].1[b] as int) < old(self).raw_messages@.len(),
                forall|q: int|
                    0 <= q < self.records@.len() ==> rec_wf(
                        #[trigger] self.records@[q]@,
                        self.templates.deep_view(),
                        self.string_pool.deep_view().len(),
                    ),
                ({
                    let out = group_recs(candsf.take(ci as int), msgs, tpls0, pool0);
                    &&& self.templates.deep_view() == out.1
                    &&& self.string_pool.deep_view() == out.2
                    &&& self.records@.len() == nrec0 + out.0.len()
                    &&& out.0.len() == total_members(candsf.take(ci as int))
                    &&& self.string_pool@.len() <= pool0.len() + 5 * out.0.len()
                    &&& (forall|q: int| 0 <= q < nrec0 ==> self.records@[q] == recsP[q])
                    &&& (forall|q: int|
                        0 <= q < out.0.len() ==> rec_matches(
                            #[trigger] self.records@[nrec0 + q]@,
                            out.0[q],
                        ))
                }),
            decreases cands_vec@.len() - ci,
        {
            let ghost tplsA = self.templates.deep_view();
            let ghost poolA = self.string_pool.deep_view();
            let ghost outA = group_recs(candsf.take(ci as int), msgs, tpls0, pool0);
            let ghost recsA = self.records@;
            let ghost cF = candsf[ci as int].0;
            let ghost membersF = candsf[ci as int].1;
            proof {
                lemma_total_members_take(candsf, ci as int);
                lemma_total_members_take(candsf, ci + 1);
                assert(candsf.take(ci + 1).drop_last() =~= candsf.take(ci as int));
                assert(candsf.take(ci + 1).last() == candsf[ci as int]);
                assert(total_members(candsf.take(ci + 1)) == total_members(candsf.take(ci as int))
                    + membersF.len());
                assert(cands_vec@[ci as int].0.deep_view() == cF);
                assert(cands_vec@[ci as int].1.deep_view() =~= membersF);
                assert(cands_vec@[ci as int].1@ =~= membersF);
                assert forall|b: int| 0 <= b < cands_vec@[ci as int].1@.len() implies (
                #[trigger] cands_vec@[ci as int].1@[b] as int) < self.raw_messages@.len() by {
                    assert(cands_vec@[ci as int].1@[b] == candsf[ci as int].1[b]);
                }
            }
            self.emit_candidate(&cands_vec[ci].0, &cands_vec[ci].1);
            proof {
                let outB = group_recs(candsf.take(ci + 1), msgs, tpls0, pool0);
                let innerF = members_recs(cF, membersF, msgs, tpl_id(tplsA, join_tokens(cF)), poolA);
                assert(outB.0 == outA.0 + innerF.0);
                assert(outB.1 == tpl_after(tplsA, join_tokens(cF)));
                assert(outB.2 == innerF.1);
                assert(self.templates.deep_view() == outB.1);
                assert(self.string_pool.deep_view() == outB.2);
                assert(self.records@.len() == nrec0 + outB.0.len());
                assert forall|q: int| 0 <= q < outB.0.len() implies rec_matches(
                    #[trigger] self.records@[nrec0 + q]@,
                    outB.0[q],
                ) by {
                    assert(recsA.len() == nrec0 + outA.0.len());
                    if q < outA.0.len() {
                        assert(self.records@[nrec0 + q] == recsA[nrec0 + q]);
                        assert(outB.0[q] == outA.0[q]);
                        assert(rec_matches(recsA[nrec0 + q]@, outA.0[q]));
                    } else {
                        assert(outB.0[q] == innerF.0[q - outA.0.len()]);
                        assert(rec_matches(
                            self.records@[recsA.len() + (q - outA.0.len())]@,
                            innerF.0[q - outA.0.len()],
                        ));
                    }
                }
            }
            ci = ci + 1;
        }
        proof {
            assert(candsf.take(cands_vec@.len() as int) =~= candsf);
        }
    }
}


proof fn lemma_cnt_lt_le(msgs: Seq<MsgV>, upto: int, b: int)
    requires
        0 <= upto,
    ensures
        cnt_lt(msgs, upto, b) <= upto,
    decreases upto,
{
    if upto > 0 {
        lemma_cnt_lt_le(msgs, upto - 1, b);
    }
}

proof fn lemma_seal_upto_empty(msgs: Seq<MsgV>, b: int, tpls: Seq<Seq<char>>, pool: Seq<Seq<char>>)
    requires
        msgs.len() == 0,
        b >= 0,
    ensures
        seal_upto(msgs, b, tpls, pool).0 =~= Seq::<SealRec>::empty(),
        seal_upto(msgs, b, tpls, pool).1 == tpls,
        seal_upto(msgs, b, tpls, pool).2 == pool,
    decreases b,
{
    if b > 0 {
        lemma_seal_upto_empty(msgs, b - 1, tpls, pool);
        let idxs = bucket_idxs(msgs, msgs.len() as int, (b - 1) as nat);
        assert(idxs =~= Seq::<usize>::empty());
        assert(group_of(idxs, msgs) =~= Seq::<(usize, Seq<Seq<char>>)>::empty());
        assert(build_cands(group_of(idxs, msgs)) == Seq::<CandS>::empty());
    }
}

impl LogChunk {
    /// Seals the chunk: runs template discovery over the raw buffer in
    /// buckets of ascending token count, materialises one record per
    /// event, clears the buffer, and returns the patterns newly minted
    /// during this seal, in table order.  Records are emitted bucket by
    /// bucket — within a bucket in arrival order — so strict global
    /// arrival order is not kept; readers that need it sort by
    /// timestamp.
    pub fn finish_and_process(&mut self) -> (r: Vec<String>)
        requires
            old(self).wf(),
            old(self).string_pool@.len() + 5 * old(self).raw_messages@.len() <= u32::MAX as nat,
            old(self).templates@.len() + old(self).raw_messages@.len() <= u32::MAX as nat,
        ensures
            final(self).wf(),
            final(self).raw_messages@.len() == 0,
            old(self).templates.deep_view().is_prefix_of(final(self).templates.deep_view()),
            old(self).string_pool.deep_view().is_prefix_of(final(self).string_pool.deep_view()),
            r.deep_view() == final(self).templates.deep_view().skip(
                old(self).templates@.len() as int,
            ),
            ({
                let msgs = old(self).raw_messages.deep_view();
                let out = seal_upto(
                    msgs,
                    max_tok(msgs) + 1int,
                    old(self).templates.deep_view(),
                    old(self).string_pool.deep_view(),
                );
                &&& final(self).templates.deep_view() == out.1
                &&& final(self).string_pool.deep_view() == out.2
                &&& final(self).records@.len() == old(self).records@.len() + out.0.len()
                &&& out.0.len() == old(self).raw_messages@.len()
                &&& (forall|q: int|
                    0 <= q < old(self).records@.len() ==> final(self).records@[q] == old(
                        self,
                    ).records@[q])
                &&& (forall|q: int|
                    0 <= q < out.0.len() ==> rec_matches(
                        #[trigger] final(self).records@[old(self).records@.len() + q]@,
                        out.0[q],
                    ))
            }),
    {
        let ghost msgs = old(self).raw_messages.deep_view();
        let ghost tpls0 = old(self).templates.deep_view();
        let ghost pool0 = old(self).string_pool.deep_view();
        let ghost nrec0 = old(self).records@.len() as int;
        let ghost recsP = old(self).records@;
        let tbase = self.templates.len();
        let mut new_templates: Vec<String> = Vec::new();
        proof {
            lemma_seal_total(msgs, tpls0, pool0);
        }
        if self.raw_messages.is_empty() {
            proof {
                lemma_seal_upto_empty(msgs, max_tok(msgs) + 1int, tpls0, pool0);
                assert(new_templates.deep_view() =~= tpls0.skip(tpls0.len() as int));
            }
            return new_templates;
        }

        // token count of every event
        let n = self.raw_messages.len();
        let mut counts: Vec<usize> = Vec::new();
        let mut i: usize = 0;
        while i < n
            invariant
                i <= n,
                n == msgs.len(),
                msgs == self.raw_messages.deep_view(),
                counts@.len() == i,
                forall|j: int| 0 <= j < i ==> (counts@[j] as nat) == tok_count(msgs[j]),
            decreases n - i,
        {
            let t = tokenize(self.raw_messages[i].message.as_str());
            proof {
                assert(self.raw_messages@[i as int].deep_view() == msgs[i as int]);
            }
            counts.push(t.len());
            i = i + 1;
        }

        // the largest bucket to visit
        let mut maxc: usize = 0;
        let mut i2: usize = 0;
        proof {
            assert(msgs.take(0) =~= Seq::<MsgV>::empty());
        }
        while i2 < n
            invariant
                i2 <= n,
                n == msgs.len(),
                counts@.len() == n,
                forall|j: int| 0 <= j < n ==> (counts@[j] as nat) == tok_count(msgs[j]),
                (maxc as nat) == max_tok(msgs.take(i2 as int)),
            decreases n - i2,
        {
            if counts[i2] > maxc {
                maxc = counts[i2];
            }
            proof {
                assert(msgs.take(i2 + 1).drop_last() =~= msgs.take(i2 as int));
                assert(msgs.take(i2 + 1).last() == msgs[i2 as int]);
            }
            i2 = i2 + 1;
        }
        proof {
            assert(msgs.take(n as int) =~= msgs);
        }

        // process buckets in ascending token count
        let mut l: usize = 0;
        proof {
            assert(seal_upto(msgs, 0, tpls0, pool0).0 =~= Seq::<SealRec>::empty());
            lemma_cnt_lt_zero(msgs, n as int, 0);
        }
        #[verifier::loop_isolation(true)]
        loop
            invariant_except_break
                l <= maxc,
                msgs == old(self).raw_messages.deep_view(),
                tpls0 == old(self).templates.deep_view(),
                pool0 == old(self).string_pool.deep_view(),
                recsP == old(self).records@,
                nrec0 == recsP.len(),
                (maxc as nat) == max_tok(msgs),
                n == msgs.len(),
                counts@.len() == n,
                forall|j: int| 0 <= j < n ==> (counts@[j] as nat) == tok_count(msgs[j]),
                msgs == old(self).raw_messages.deep_view(),
                self.raw_messages == old(self).raw_messages,
                self.next_template_id as nat == self.templates@.len(),
                distinct_seq(self.templates.deep_view()),
                distinct_seq(self.string_pool.deep_view()),
                tpls0.is_prefix_of(self.templates.deep_view()),
                pool0.is_prefix_of(self.string_pool.deep_view()),
                tpls0.len() + n <= u32::MAX as nat,
                pool0.len() + 5 * n <= u32::MAX as nat,
                forall|q: int|
                    0 <= q < self.records@.len() ==> rec_wf(
                        #[trigger] self.records@[q]@,
                        self.templates.deep_view(),
                        self.string_pool.deep_view().len(),
                    ),
                ({
                    let out = seal_upto(msgs, l as int, tpls0, pool0);
                    &&& self.templates.deep_view() == out.1
                    &&& self.string_pool.deep_view() == out.2
                    &&& self.records@.len() == nrec0 + out.0.len()
                    &&& out.0.len() == cnt_lt(msgs, n as int, l as int)
                    &&& self.templates@.len() <= tpls0.len() + out.0.len()
                    &&& self.string_pool@.len() <= pool0.len() + 5 * out.0.len()
                    &&& (forall|q: int| 0 <= q < nrec0 ==> self.records@[q] == recsP[q])
                    &&& (forall|q: int|
                        0 <= q < out.0.len() ==> rec_matches(
                            #[trigger] self.records@[nrec0 + q]@,
                            out.0[q],
                        ))
                }),
            ensures
                n == msgs.len(),
                msgs == old(self).raw_messages.deep_view(),
                tpls0 == old(self).templates.deep_view(),
                pool0 == old(self).string_pool.deep_view(),
                recsP == old(self).records@,
                nrec0 == recsP.len(),
                self.raw_messages == old(self).raw_messages,
                self.next_template_id as nat == self.templates@.len(),
                distinct_seq(self.templates.deep_view()),
                distinct_seq(self.string_pool.deep_view()),
                tpls0.is_prefix_of(self.templates.deep_view()),
                pool0.is_prefix_of(self.string_pool.deep_view()),
                tpls0.len() + n <= u32::MAX as nat,
                pool0.len() + 5 * n <= u32::MAX as nat,
                forall|q: int|
                    0 <= q < self.records@.len() ==> rec_wf(
                        #[trigger] self.records@[q]@,
                        self.templates.deep_view(),
                        self.string_pool.deep_view().len(),
                    ),
                ({
                    let out = seal_upto(msgs, max_tok(msgs) + 1int, tpls0, pool0);
                    &&& self.templates.deep_view() == out.1
                    &&& self.string_pool.deep_view() == out.2
                    &&& self.records@.len() == nrec0 + out.0.len()
                    &&& self.templates@.len() <= tpls0.len() + out.0.len()
                    &&& self.string_pool@.len() <= pool0.len() + 5 * out.0.len()
                    &&& (forall|q: int| 0 <= q < nrec0 ==> self.records@[q] == recsP[q])
                    &&& (forall|q: int|
                        0 <= q < out.0.len() ==> rec_matches(
                            #[trigger] self.records@[nrec0 + q]@,
                            out.0[q],
                        ))
                }),
            decreases maxc - l,
        {
            // gather the bucket with exactly `l` tokens
            let mut bucket: Vec<usize> = Vec::new();
            let mut bi: usize = 0;
            proof {
                assert(bucket@ =~= bucket_idxs(msgs, 0, l as nat));
            }
            while bi < n
                invariant
                    bi <= n,
                    n == msgs.len(),
                    counts@.len() == n,
                    forall|j: int| 0 <= j < n ==> (counts@[j] as nat) == tok_count(msgs[j]),
                    bucket@ == bucket_idxs(msgs, bi as int, l as nat),
                decreases n - bi,
            {
                if counts[bi] == l {
                    bucket.push(bi);
                }
                bi = bi + 1;
            }
            let ghost outA = seal_upto(msgs, l as int, tpls0, pool0);
            let ghost recsE = self.records@;
            proof {
                lemma_bucket_bound(msgs, n as int, l as nat);
                lemma_cnt_lt_step(msgs, n as int, l as int + 1);
                lemma_cnt_lt_le(msgs, n as int, l as int + 1);
            }
            if bucket.len() > 0 {
                self.process_group(&bucket);
            } else {
                proof {
                    assert(group_of(bucket@, msgs) =~= Seq::<(usize, Seq<Seq<char>>)>::empty());
                    assert(build_cands(group_of(bucket@, msgs)) == Seq::<CandS>::empty());
                }
            }
            proof {
                let outB = seal_upto(msgs, l as int + 1, tpls0, pool0);
                let cg = build_cands(group_of(bucket@, msgs));
                let g = group_recs(cg, msgs, outA.1, outA.2);
                lemma_build_cands_le(group_of(bucket@, msgs));
                lemma_build_cands_members(group_of(bucket@, msgs));
                lemma_group_recs_growth(cg, msgs, outA.1, outA.2);
                lemma_group_recs_len(cg, msgs, outA.1, outA.2);
                assert(outB.0 == outA.0 + g.0);
                if bucket@.len() == 0 {
                    assert(outB.0 =~= outA.0);
                } else {
                    assert(g.0.len() == bucket@.len());
                }
                assert forall|q: int| 0 <= q < outB.0.len() implies rec_matches(
                    #[trigger] self.records@[nrec0 + q]@,
                    outB.0[q],
                ) by {
                    if q < outA.0.len() {
                        assert(outB.0[q] == outA.0[q]);
                        assert(self.records@[nrec0 + q] == recsE[nrec0 + q]);
                    } else {
                        let q2 = q - outA.0.len();
                        assert(outB.0[q] == g.0[q2]);
                        assert(rec_matches(self.records@[recsE.len() + q2]@, g.0[q2]));
                        assert(nrec0 + q == recsE.len() + q2);
                    }
                }
            }
            if l == maxc {
                break ;
            }
            l = l + 1;
        }

        // the patterns newly minted during this seal: the table's suffix
        let ghost tplsF = self.templates.deep_view();
        let mut q = tbase;
        proof {
            assert(tplsF.subrange(tbase as int, tbase as int) =~= Seq::<Seq<char>>::empty());
            assert(new_templates.deep_view() =~= Seq::<Seq<char>>::empty());
        }
        while q < self.templates.len()
            invariant
                tbase <= q <= self.templates@.len(),
                tplsF == self.templates.deep_view(),
                new_templates.deep_view() == tplsF.subrange(tbase as int, q as int),
            decreases self.templates@.len() - q,
        {
            new_templates.push(self.templates[q].clone());
            proof {
                assert(tplsF[q as int] == self.templates@[q as int]@);
                assert(tplsF.subrange(tbase as int, q + 1) =~= tplsF.subrange(
                    tbase as int,
                    q as int,
                ).push(tplsF[q as int]));
            }
            q = q + 1;
        }
        proof {
            assert(tplsF.subrange(tbase as int, tplsF.len() as int) =~= tplsF.skip(tbase as int));
        }
        self.raw_messages.clear();
        new_templates
    }
}


/// Relies on chrono::Utc::now and DateTime::timestamp_millis: the wall
/// clock as milliseconds since the Unix epoch.  Nothing is promised of
/// the value.
#[verifier::external_body]
pub(crate) fn now_millis() -> i64 {
    chrono::Utc::now().timestamp_millis()
}

/// A record as produced by the seal, before the wall clock fills a
/// missing timestamp.
pub struct SealRec {
    pub timestamp: Option<i64>,
    pub priority: u8,
    pub hostname_id: Option<u32>,
    pub app_name_id: Option<u32>,
    pub procid_id: Option<u32>,
    pub msgid_id: Option<u32>,
    pub structured_data_id: Option<u32>,
    pub template_id: u32,
    pub variables: Seq<Seq<char>>,
    pub is_rfc5424: bool,
}

/// A materialised record agrees with the seal's output on every field;
/// a timestamp the event did not carry came from the wall clock and is
/// not constrained.
pub open spec fn rec_matches(r: LogRecordV, s: SealRec) -> bool {
    &&& (s.timestamp is Some ==> r.timestamp == s.timestamp->0)
    &&& r.priority == s.priority
    &&& r.hostname_id == s.hostname_id
    &&& r.app_name_id == s.app_name_id
    &&& r.procid_id == s.procid_id
    &&& r.msgid_id == s.msgid_id
    &&& r.structured_data_id == s.structured_data_id
    &&& r.template_id == s.template_id
    &&& r.variables == s.variables
    &&& r.is_rfc5424 == s.is_rfc5424
}

/// One member of a candidate becomes a record: its tokens fill the
/// placeholder slots, and its header strings are interned in field
/// order.  Returns the record and the pool afterwards.
pub open spec fn member_rec(m: MsgV, c: Seq<Seq<char>>, tid: u32, pool: Seq<Seq<char>>) -> (
    SealRec,
    Seq<Seq<char>>,
) {
    let p1 = pool_after(pool, m.hostname);
    let p2 = pool_after(p1, m.app_name);
    let p3 = pool_after(p2, m.procid);
    let p4 = pool_after(p3, m.msgid);
    let p5 = pool_after(p4, m.structured_data);
    (
        SealRec {
            timestamp: m.timestamp,
            priority: m.priority,
            hostname_id: interned_id(pool, m.hostname),
            app_name_id: interned_id(p1, m.app_name),
            procid_id: interned_id(p2, m.procid),
            msgid_id: interned_id(p3, m.msgid),
            structured_data_id: interned_id(p4, m.structured_data),
            template_id: tid,
            variables: vars_of(c, tokens_of(m.message)),
            is_rfc5424: m.is_rfc5424,
        },
        p5,
    )
}

/// The records of a candidate's members, in insertion order, threading
/// the pool through.
pub open spec fn members_recs(
    c: Seq<Seq<char>>,
    members: Seq<usize>,
    msgs: Seq<MsgV>,
    tid: u32,
    pool: Seq<Seq<char>>,
) -> (Seq<SealRec>, Seq<Seq<char>>)
    decreases members.len(),
{
    if members.len() == 0 {
        (Seq::empty(), pool)
    } else {
        let (rs, p) = members_recs(c, members.drop_last(), msgs, tid, pool);
        let (r, p2) = member_rec(msgs[members.last() as int], c, tid, p);
        (rs.push(r), p2)
    }
}

/// A whole bucket's worth of candidates: each pattern is interned, then
/// its members' records follow, threading table and pool through.
/// Returns the records, the template table and the pool afterwards.
pub open spec fn group_recs(
    cands: Seq<CandS>,
    msgs: Seq<MsgV>,
    tpls: Seq<Seq<char>>,
    pool: Seq<Seq<char>>,
) -> (Seq<SealRec>, Seq<Seq<char>>, Seq<Seq<char>>)
    decreases cands.len(),
{
    if cands.len() == 0 {
        (Seq::empty(), tpls, pool)
    } else {
        let (rs, tp, pl) = group_recs(cands.drop_last(), msgs, tpls, pool);
        let c = cands.last();
        let pat = join_tokens(c.0);
        let tid = tpl_id(tp, pat);
        let (rs2, pl2) = members_recs(c.0, c.1, msgs, tid, pl);
        (rs + rs2, tpl_after(tp, pat), pl2)
    }
}

/// Number of whitespace tokens in the event's message.
pub open spec fn tok_count(m: MsgV) -> nat {
    tokens_of(m.message).len()
}

/// The indices below `upto` whose messages have exactly `l` tokens, in
/// ascending order.
pub open spec fn bucket_idxs(msgs: Seq<MsgV>, upto: int, l: nat) -> Seq<usize>
    decreases upto,
{
    if upto <= 0 {
        Seq::empty()
    } else {
        let pre = bucket_idxs(msgs, upto - 1, l);
        if tok_count(msgs[upto - 1]) == l {
            pre.push((upto - 1) as usize)
        } else {
            pre
        }
    }
}

/// The largest token count among the events.
pub open spec fn max_tok(msgs: Seq<MsgV>) -> nat
    decreases msgs.len(),
{
    if msgs.len() == 0 {
        0
    } else {
        let m = max_tok(msgs.drop_last());
        if tok_count(msgs.last()) > m {
            tok_count(msgs.last())
        } else {
            m
        }
    }
}

pub proof fn lemma_max_tok(msgs: Seq<MsgV>)
    ensures
        forall|i: int| 0 <= i < msgs.len() ==> tok_count(#[trigger] msgs[i]) <= max_tok(msgs),
    decreases msgs.len(),
{
    if msgs.len() > 0 {
        lemma_max_tok(msgs.drop_last());
        assert forall|i: int| 0 <= i < msgs.len() implies tok_count(#[trigger] msgs[i])
            <= max_tok(msgs) by {
            if i < msgs.len() - 1 {
                assert(msgs[i] == msgs.drop_last()[i]);
            }
        }
    }
}

/// The whole seal: buckets processed in ascending token count, each one
/// discovered and materialised, threading table and pool through.
pub open spec fn seal_upto(
    msgs: Seq<MsgV>,
    b: int,
    tpls: Seq<Seq<char>>,
    pool: Seq<Seq<char>>,
) -> (Seq<SealRec>, Seq<Seq<char>>, Seq<Seq<char>>)
    decreases b,
{
    if b <= 0 {
        (Seq::empty(), tpls, pool)
    } else {
        let (rs, tp, pl) = seal_upto(msgs, b - 1, tpls, pool);
        let idxs = bucket_idxs(msgs, msgs.len() as int, (b - 1) as nat);
        let out = group_recs(build_cands(group_of(idxs, msgs)), msgs, tp, pl);
        (rs + out.0, out.1, out.2)
    }
}

/// Number of events in the buckets below `b`.
pub open spec fn cnt_lt(msgs: Seq<MsgV>, upto: int, b: int) -> nat
    decreases upto,
{
    if upto <= 0 {
        0
    } else {
        cnt_lt(msgs, upto - 1, b) + if (tok_count(msgs[upto - 1]) as int) < b {
            1nat
        } else {
            0nat
        }
    }
}

proof fn lemma_cnt_lt_step(msgs: Seq<MsgV>, upto: int, b: int)
    requires
        b >= 1,
    ensures
        cnt_lt(msgs, upto, b) == cnt_lt(msgs, upto, b - 1) + bucket_idxs(msgs, upto, (b - 1) as nat).len(),
    decreases upto,
{
    if upto > 0 {
        lemma_cnt_lt_step(msgs, upto - 1, b);
    }
}

proof fn lemma_cnt_lt_all(msgs: Seq<MsgV>, upto: int, b: int)
    requires
        0 <= upto <= msgs.len(),
        forall|i: int| 0 <= i < msgs.len() ==> (tok_count(#[trigger] msgs[i]) as int) < b,
    ensures
        cnt_lt(msgs, upto, b) == upto,
    decreases upto,
{
    if upto > 0 {
        lemma_cnt_lt_all(msgs, upto - 1, b);
    }
}

pub proof fn lemma_members_recs_len(
    c: Seq<Seq<char>>,
    members: Seq<usize>,
    msgs: Seq<MsgV>,
    tid: u32,
    pool: Seq<Seq<char>>,
)
    ensures
        members_recs(c, members, msgs, tid, pool).0.len() == members.len(),
    decreases members.len(),
{
    if members.len() > 0 {
        lemma_members_recs_len(c, members.drop_last(), msgs, tid, pool);
    }
}

pub proof fn lemma_group_recs_len(
    cands: Seq<CandS>,
    msgs: Seq<MsgV>,
    tpls: Seq<Seq<char>>,
    pool: Seq<Seq<char>>,
)
    ensures
        group_recs(cands, msgs, tpls, pool).0.len() == total_members(cands),
    decreases cands.len(),
{
    if cands.len() > 0 {
        lemma_group_recs_len(cands.drop_last(), msgs, tpls, pool);
        let (rs, tp, pl) = group_recs(cands.drop_last(), msgs, tpls, pool);
        let c = cands.last();
        lemma_members_recs_len(c.0, c.1, msgs, tpl_id(tp, join_tokens(c.0)), pl);
    }
}

proof fn lemma_members_recs_growth(
    c: Seq<Seq<char>>,
    members: Seq<usize>,
    msgs: Seq<MsgV>,
    tid: u32,
    pool: Seq<Seq<char>>,
)
    ensures
        pool.is_prefix_of(members_recs(c, members, msgs, tid, pool).1),
        members_recs(c, members, msgs, tid, pool).1.len() <= pool.len() + 5 * members.len(),
    decreases members.len(),
{
    if members.len() > 0 {
        lemma_members_recs_growth(c, members.drop_last(), msgs, tid, pool);
        let p = members_recs(c, members.drop_last(), msgs, tid, pool).1;
        let m = msgs[members.last() as int];
        let p1 = pool_after(p, m.hostname);
        let p2 = pool_after(p1, m.app_name);
        let p3 = pool_after(p2, m.procid);
        let p4 = pool_after(p3, m.msgid);
        let p5 = pool_after(p4, m.structured_data);
        assert(p.is_prefix_of(p1) && p1.is_prefix_of(p2) && p2.is_prefix_of(p3)
            && p3.is_prefix_of(p4) && p4.is_prefix_of(p5));
        assert(pool.is_prefix_of(p5));
    }
}

proof fn lemma_group_recs_growth(
    cands: Seq<CandS>,
    msgs: Seq<MsgV>,
    tpls: Seq<Seq<char>>,
    pool: Seq<Seq<char>>,
)
    ensures
        group_recs(cands, msgs, tpls, pool).1.len() <= tpls.len() + cands.len(),
        group_recs(cands, msgs, tpls, pool).2.len() <= pool.len() + 5 * total_members(cands),
    decreases cands.len(),
{
    if cands.len() > 0 {
        lemma_group_recs_growth(cands.drop_last(), msgs, tpls, pool);
        let (rs, tp, pl) = group_recs(cands.drop_last(), msgs, tpls, pool);
        let c = cands.last();
        lemma_members_recs_growth(c.0, c.1, msgs, tpl_id(tp, join_tokens(c.0)), pl);
    }
}

/// The seal emits one record per event of the processed buckets.
pub proof fn lemma_seal_upto_len(
    msgs: Seq<MsgV>,
    b: int,
    tpls: Seq<Seq<char>>,
    pool: Seq<Seq<char>>,
)
    requires
        b >= 0,
    ensures
        seal_upto(msgs, b, tpls, pool).0.len() == cnt_lt(msgs, msgs.len() as int, b),
    decreases b,
{
    if b > 0 {
        lemma_seal_upto_len(msgs, b - 1, tpls, pool);
        let (rs, tp, pl) = seal_upto(msgs, b - 1, tpls, pool);
        let idxs = bucket_idxs(msgs, msgs.len() as int, (b - 1) as nat);
        let cands = build_cands(group_of(idxs, msgs));
        lemma_group_recs_len(cands, msgs, tp, pl);
        lemma_build_cands_members(group_of(idxs, msgs));
        lemma_cnt_lt_step(msgs, msgs.len() as int, b);
    } else {
        assert(cnt_lt(msgs, msgs.len() as int, 0) == 0) by {
            lemma_cnt_lt_zero(msgs, msgs.len() as int, b);
        }
    }
}

proof fn lemma_cnt_lt_zero(msgs: Seq<MsgV>, upto: int, b: int)
    requires
        b <= 0,
    ensures
        cnt_lt(msgs, upto, b) == 0,
    decreases upto,
{
    if upto > 0 {
        lemma_cnt_lt_zero(msgs, upto - 1, b);
    }
}

/// Every event lands in exactly one bucket of the full seal.
pub proof fn lemma_seal_total(msgs: Seq<MsgV>, tpls: Seq<Seq<char>>, pool: Seq<Seq<char>>)
    ensures
        seal_upto(msgs, max_tok(msgs) + 1int, tpls, pool).0.len() == msgs.len(),
{
    let b: int = max_tok(msgs) + 1int;
    lemma_seal_upto_len(msgs, b, tpls, pool);
    lemma_max_tok(msgs);
    lemma_cnt_lt_all(msgs, msgs.len() as int, b);
}

/// Indices in a bucket point into the raw buffer.
pub proof fn lemma_bucket_bound(msgs: Seq<MsgV>, upto: int, l: nat)
    requires
        0 <= upto <= msgs.len(),
    ensures
        forall|k: int|
            0 <= k < bucket_idxs(msgs, upto, l).len() ==> (#[trigger] bucket_idxs(msgs, upto, l)[k] as int) < msgs.len(),
        bucket_idxs(msgs, upto, l).len() <= upto,
    decreases upto,
{
    if upto > 0 {
        lemma_bucket_bound(msgs, upto - 1, l);
        let pre = bucket_idxs(msgs, upto - 1, l);
        if tok_count(msgs[upto - 1]) == l {
            assert forall|k: int|
                0 <= k < bucket_idxs(msgs, upto, l).len() implies (#[trigger] bucket_idxs(
                msgs,
                upto,
                l,
            )[k] as int) < msgs.len() by {
                if k < pre.len() {
                    assert(bucket_idxs(msgs, upto, l)[k] == pre[k]);
                } else {
                    assert(bucket_idxs(msgs, upto, l)[k] == (upto - 1) as usize);
                }
            }
        }
    }
}

/// The (index, tokens) pairs a bucket hands to the discoverer.
pub open spec fn group_of(idxs: Seq<usize>, msgs: Seq<MsgV>) -> Seq<(usize, Seq<Seq<char>>)> {
    Seq::new(idxs.len(), |k: int| (idxs[k], tokens_of(msgs[idxs[k] as int].message)))
}

} // verus!
