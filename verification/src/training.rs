//! The training session: a shrinking working set of records, each carrying
//! per-direction completion flags. Items and directions are handed out at
//! random, a direction already answered is never offered, and an item leaves
//! the working set exactly when both of its directions are done.

use vstd::prelude::*;

use crate::csv_struct::{csv_rows, read_data, records_of_rows, CSVStruct, CsvView, LoadError};

verus! {

/// The direction of a quiz: which language the answer is expected in.
#[derive(Debug, Clone, Copy, PartialEq, Eq, Structural)]
pub enum Language {
    Japanese,
    English,
}

/// Per-record completion flags, one per direction.
#[derive(Debug, Clone, Copy, PartialEq, Eq, Structural)]
pub struct Done {
    pub japanese: bool,
    pub english: bool,
}

impl Default for Done {
    fn default() -> (r: Self)
        ensures
            !r.japanese && !r.english,
    {
        Done { japanese: false, english: false }
    }
}

/// One record of the working set: the dataset entry and its progress.
#[derive(Debug)]
pub struct TrainingData {
    pub csv_data: CSVStruct,
    pub done: Done,
}

/// The mathematical value of a working-set item.
pub ghost struct ItemView {
    pub csv: CsvView,
    pub done: Done,
}

impl View for TrainingData {
    type V = ItemView;

    open spec fn view(&self) -> ItemView {
        ItemView { csv: self.csv_data@, done: self.done }
    }
}

impl Clone for TrainingData {
    fn clone(&self) -> (r: Self)
        ensures
            r@ == self@,
    {
        TrainingData { csv_data: self.csv_data.clone(), done: self.done }
    }
}

impl PartialEq for TrainingData {
    fn eq(&self, other: &Self) -> (r: bool) {
        self.csv_data == other.csv_data && self.done == other.done
    }
}

impl vstd::std_specs::cmp::PartialEqSpecImpl for TrainingData {
    open spec fn obeys_eq_spec() -> bool {
        true
    }

    open spec fn eq_spec(&self, other: &Self) -> bool {
        self@ == other@
    }
}

/// Whether direction `lang` is already completed in `d`.
pub open spec fn dir_done(d: Done, lang: Language) -> bool {
    match lang {
        Language::Japanese => d.japanese,
        Language::English => d.english,
    }
}

/// The opposite quiz direction.
pub open spec fn other_dir(lang: Language) -> Language {
    match lang {
        Language::Japanese => Language::English,
        Language::English => Language::Japanese,
    }
}

/// `d` with the flag of direction `lang` set.
pub open spec fn set_dir(d: Done, lang: Language) -> Done {
    match lang {
        Language::Japanese => Done { japanese: true, ..d },
        Language::English => Done { english: true, ..d },
    }
}

/// Both directions answered: the item is learned.
pub open spec fn fully_done(d: Done) -> bool {
    d.japanese && d.english
}

/// The views of a sequence of working-set items.
pub open spec fn item_views(s: Seq<TrainingData>) -> Seq<ItemView> {
    Seq::new(s.len(), |i: int| s[i]@)
}

/// A working set is well formed when no stored item is already fully done:
/// such an item is removed the moment its second direction is marked.
pub open spec fn wf_seq(s: Seq<ItemView>) -> bool {
    forall|i: int| 0 <= i < s.len() ==> !fully_done(#[trigger] s[i].done)
}

impl TrainingData {
    /// Wraps a freshly loaded record: nothing is completed yet.
    pub fn from_csvdata(csv_data: CSVStruct) -> (r: Self)
        ensures
            r@.csv == csv_data@,
            r@.done == (Done { japanese: false, english: false }),
    {
        Self { csv_data, done: Done::default() }
    }

    /// Marks direction `lang` as answered; a direction already done is
    /// refused and the item is left as it was.
    pub fn mark_done(&mut self, lang: Language) -> (r: Result<(), &'static str>)
        ensures
            dir_done(old(self)@.done, lang) ==> final(self)@ == old(self)@
                && (r matches Err(m) && m@ == "Already done"@),
            !dir_done(old(self)@.done, lang) ==> r is Ok
                && final(self)@.done == set_dir(old(self)@.done, lang)
                && final(self)@.csv == old(self)@.csv,
    {
        match lang {
            Language::Japanese => {
                if self.done.japanese {
                    return Err("Already done");
                }
                self.done.japanese = true;
            }
            Language::English => {
                if self.done.english {
                    return Err("Already done");
                }
                self.done.english = true;
            }
        }
        Ok(())
    }

    /// Both directions of this item have been answered.
    pub fn is_done(&self) -> (r: bool)
        ensures
            r == fully_done(self@.done),
    {
        self.done.english && self.done.japanese
    }
}

/// A caller broke the session's contract: the drill loop never triggers
/// either of these when it only marks what `get_random` handed out.
#[derive(Debug, Clone, Copy, PartialEq, Eq, Structural)]
pub enum MarkError {
    /// No item of the working set equals the one given.
    NotFound,
    /// The given direction is already completed for that item.
    AlreadyDone,
}

/// The index of the first item of `s` equal to `t`, or `-1` if there is none.
pub open spec fn find_first(s: Seq<ItemView>, t: ItemView) -> int
    decreases s.len(),
{
    if s.len() == 0 {
        -1
    } else if s[0] == t {
        0
    } else {
        let rest = find_first(s.subrange(1, s.len() as int), t);
        if rest < 0 {
            -1
        } else {
            rest + 1
        }
    }
}

/// What marking direction `lang` on the first item equal to `t` does to a
/// working set: an error leaves it alone; otherwise the flag is set, and the
/// item is removed exactly when it is thereby fully done.
pub open spec fn mark_step(s: Seq<ItemView>, t: ItemView, lang: Language) -> Result<
    Seq<ItemView>,
    MarkError,
> {
    let i = find_first(s, t);
    if i < 0 {
        Err(MarkError::NotFound)
    } else if dir_done(s[i].done, lang) {
        Err(MarkError::AlreadyDone)
    } else {
        let m = ItemView { csv: s[i].csv, done: set_dir(s[i].done, lang) };
        if fully_done(m.done) {
            Ok(s.remove(i))
        } else {
            Ok(s.update(i, m))
        }
    }
}

/// `find_first` returns `-1` exactly when no item matches, and otherwise the
/// least index of a matching item.
pub proof fn lemma_find_first(s: Seq<ItemView>, t: ItemView)
    ensures
        find_first(s, t) == -1 <==> (forall|i: int| 0 <= i < s.len() ==> s[i] != t),
        find_first(s, t) != -1 ==> 0 <= find_first(s, t) < s.len() && s[find_first(s, t)] == t
            && (forall|i: int| 0 <= i < find_first(s, t) ==> s[i] != t),
    decreases s.len(),
{
    if s.len() != 0 && s[0] != t {
        let sub = s.subrange(1, s.len() as int);
        lemma_find_first(sub, t);
        assert(forall|i: int| 0 <= i < sub.len() ==> sub[i] == s[i + 1]);
        assert(forall|i: int| 1 <= i < s.len() ==> #[trigger] s[i] == sub[i - 1]);
    }
}

/// How a typed answer is held against the expected one.
#[derive(Debug, Clone, Copy, PartialEq, Eq, Structural)]
pub enum MatchPolicy {
    /// Character for character.
    Exact,
    /// Up to letter case.
    IgnoreCase,
}

/// What `str::to_lowercase` turns a string into: a function of the
/// characters alone.
pub uninterp spec fn lower_of(s: Seq<char>) -> Seq<char>;

/// Relies on str::to_lowercase: the result depends on the characters alone.
#[verifier::external_body]
fn lowercase(s: &String) -> (r: String)
    ensures
        r@ == lower_of(s@),
{
    s.to_lowercase()
}

/// The comparison policy of each direction: an answer in English is
/// tolerant of letter case, an answer in Japanese must match exactly.
pub open spec fn policy_spec(lang: Language) -> MatchPolicy {
    match lang {
        Language::Japanese => MatchPolicy::IgnoreCase,
        Language::English => MatchPolicy::Exact,
    }
}

/// The comparison policy for answers quizzed in direction `lang`.
pub fn policy_for(lang: Language) -> (r: MatchPolicy)
    ensures
        r == policy_spec(lang),
{
    match lang {
        Language::Japanese => MatchPolicy::IgnoreCase,
        Language::English => MatchPolicy::Exact,
    }
}

/// Whether a typed answer counts as correct under the given policy.
pub fn answer_matches(expected: &String, given: &String, policy: MatchPolicy) -> (r: bool)
    ensures
        policy == MatchPolicy::Exact ==> r == (expected@ == given@),
        policy == MatchPolicy::IgnoreCase ==> r == (lower_of(expected@) == lower_of(given@)),
{
    match policy {
        MatchPolicy::Exact => *expected == *given,
        MatchPolicy::IgnoreCase => lowercase(expected) == lowercase(given),
    }
}

/// The side of the record that is shown as the prompt: the side not being
/// tested in direction `lang`.
pub fn prompt_side(c: &CSVStruct, lang: Language) -> (r: &String)
    ensures
        lang == Language::Japanese ==> r@ == c@.japanese,
        lang == Language::English ==> r@ == c@.english,
{
    match lang {
        Language::Japanese => &c.japanese,
        Language::English => &c.english,
    }
}

/// The side of the record that the answer is held against in direction
/// `lang`.
pub fn answer_side(c: &CSVStruct, lang: Language) -> (r: &String)
    ensures
        lang == Language::Japanese ==> r@ == c@.english,
        lang == Language::English ==> r@ == c@.japanese,
{
    match lang {
        Language::Japanese => &c.english,
        Language::English => &c.japanese,
    }
}

/// The items a freshly constructed session holds: one per record, with
/// nothing completed.
pub open spec fn fresh_items(rs: Seq<CsvView>) -> Seq<ItemView> {
    Seq::new(
        rs.len(),
        |i: int| ItemView { csv: rs[i], done: Done { japanese: false, english: false } },
    )
}

/// After a successful mark of direction `lang` on `t`, the matched item —
/// the first one equal to `t` — carries the flag of `lang`: it leaves the
/// working set exactly when its other direction was already done, and
/// otherwise stays at its place with exactly the one new flag added.
pub proof fn law_mark_done_effect(s: Seq<ItemView>, t: ItemView, lang: Language, s2: Seq<ItemView>)
    requires
        mark_step(s, t, lang) == Ok::<_, MarkError>(s2),
    ensures
        ({
            let i = find_first(s, t);
            &&& 0 <= i < s.len()
            &&& s[i] == t
            &&& !dir_done(t.done, lang)
            &&& dir_done(t.done, other_dir(lang)) ==> s2 == s.remove(i) && s2.len() == s.len() - 1
            &&& !dir_done(t.done, other_dir(lang)) ==> s2 == s.update(
                i,
                ItemView { csv: t.csv, done: set_dir(t.done, lang) },
            ) && s2.len() == s.len() && dir_done(s2[i].done, lang) && !dir_done(
                s2[i].done,
                other_dir(lang),
            )
        }),
{
    lemma_find_first(s, t);
    let i = find_first(s, t);
    s.remove_ensures(i);
}

/// Marking keeps the working set well formed: an item is stored only while
/// at least one of its directions is still open.
pub proof fn law_mark_preserves_wf(s: Seq<ItemView>, t: ItemView, lang: Language, s2: Seq<ItemView>)
    requires
        wf_seq(s),
        mark_step(s, t, lang) == Ok::<_, MarkError>(s2),
    ensures
        wf_seq(s2),
{
    lemma_find_first(s, t);
    let i = find_first(s, t);
    s.remove_ensures(i);
}

/// A successful mark never grows the working set, and shrinks it by exactly
/// one precisely when it completes the item's second direction.
pub proof fn law_mark_step_size(s: Seq<ItemView>, t: ItemView, lang: Language, s2: Seq<ItemView>)
    requires
        mark_step(s, t, lang) == Ok::<_, MarkError>(s2),
    ensures
        s.len() > 0,
        dir_done(t.done, other_dir(lang)) ==> s2.len() == s.len() - 1,
        !dir_done(t.done, other_dir(lang)) ==> s2.len() == s.len(),
{
    law_mark_done_effect(s, t, lang, s2);
}

/// The working set left by a run of marks, each applied in turn as
/// `mark_step` says; nothing if any mark of the run fails.
pub open spec fn run_marks(s: Seq<ItemView>, ms: Seq<(ItemView, Language)>) -> Option<Seq<ItemView>>
    decreases ms.len(),
{
    if ms.len() == 0 {
        Some(s)
    } else {
        match mark_step(s, ms[0].0, ms[0].1) {
            Ok(s1) => run_marks(s1, ms.drop_first()),
            Err(_) => None,
        }
    }
}

/// How many marks of a run complete their item's second direction: those
/// whose item already carries the flag of the opposite direction.
pub open spec fn completions(ms: Seq<(ItemView, Language)>) -> int
    decreases ms.len(),
{
    if ms.len() == 0 {
        0
    } else {
        (if dir_done(ms[0].0.done, other_dir(ms[0].1)) {
            1int
        } else {
            0int
        }) + completions(ms.drop_first())
    }
}

/// Over a whole successful run the working set shrinks by exactly the number
/// of second-direction completions among its marks, in whatever order they
/// come; so a set of `N` items is empty after a run exactly when the run
/// holds `N` such completions.
pub proof fn law_run_size(s: Seq<ItemView>, ms: Seq<(ItemView, Language)>, s2: Seq<ItemView>)
    requires
        run_marks(s, ms) == Some(s2),
    ensures
        s2.len() == s.len() - completions(ms),
        s2.len() == 0 <==> completions(ms) == s.len(),
    decreases ms.len(),
{
    if ms.len() != 0 {
        let s1 = mark_step(s, ms[0].0, ms[0].1).unwrap();
        law_mark_step_size(s, ms[0].0, ms[0].1, s1);
        law_run_size(s1, ms.drop_first(), s2);
    }
}

/// When `t` stands only once in the working set and the mark completes its
/// second direction, no item equal to `t` is left afterwards; nor is its
/// completed form present, the set staying well formed.
pub proof fn law_completed_item_leaves(
    s: Seq<ItemView>,
    t: ItemView,
    lang: Language,
    s2: Seq<ItemView>,
)
    requires
        wf_seq(s),
        mark_step(s, t, lang) == Ok::<_, MarkError>(s2),
        dir_done(t.done, other_dir(lang)),
        forall|k: int| 0 <= k < s.len() && s[k] == t ==> k == find_first(s, t),
    ensures
        forall|k: int| 0 <= k < s2.len() ==> s2[k] != t,
        forall|k: int|
            0 <= k < s2.len() ==> #[trigger] s2[k] != (ItemView {
                csv: t.csv,
                done: set_dir(t.done, lang),
            }),
{
    law_mark_done_effect(s, t, lang, s2);
    law_mark_preserves_wf(s, t, lang, s2);
    let i = find_first(s, t);
    s.remove_ensures(i);
    assert forall|k: int| 0 <= k < s2.len() implies s2[k] != t by {
        if k < i {
            assert(s2[k] == s[k]);
        } else {
            assert(s2[k] == s[k + 1]);
        }
    }
    assert forall|k: int|
        0 <= k < s2.len() implies #[trigger] s2[k] != (ItemView {
        csv: t.csv,
        done: set_dir(t.done, lang),
    }) by {
        assert(!fully_done(s2[k].done));
        assert(fully_done(set_dir(t.done, lang)));
    }
}

/// The training session: the working set of not yet learned items.
#[derive(Debug)]
pub struct Training {
    pub training_data: Vec<TrainingData>,
}

impl View for Training {
    type V = Seq<ItemView>;

    open spec fn view(&self) -> Seq<ItemView> {
        item_views(self.training_data@)
    }
}

/// Relies on rand::Rng::gen_range over rand::thread_rng: a draw from the
/// half-open range below `len`, which is not empty.
#[verifier::external_body]
fn random_index(len: usize) -> (r: usize)
    requires
        len > 0,
    ensures
        r < len,
{
    rand::Rng::gen_range(&mut rand::thread_rng(), 0..len)
}

/// Relies on rand::random::<bool>: a fair draw from the thread-local
/// generator; nothing is known of the outcome.
#[verifier::external_body]
fn random_coin() -> bool {
    rand::random::<bool>()
}

/// The index of the first item of `v` equal to `t`, searched front to back
/// as `find_first` counts.
fn find_item(v: &Vec<TrainingData>, t: &TrainingData) -> (r: Option<usize>)
    ensures
        match r {
            Some(i) => i < v@.len() && find_first(item_views(v@), t@) == i,
            None => find_first(item_views(v@), t@) == -1,
        },
{
    let mut j: usize = 0;
    while j < v.len()
        invariant
            j <= v@.len(),
            forall|k: int| 0 <= k < j ==> #[trigger] item_views(v@)[k] != t@,
        decreases v@.len() - j,
    {
        if &v[j] == t {
            proof {
                let s = item_views(v@);
                lemma_find_first(s, t@);
                assert(s[j as int] == v@[j as int]@);
                assert(find_first(s, t@) == j);
            }
            return Some(j);
        }
        proof {
            assert(item_views(v@)[j as int] == v@[j as int]@);
        }
        j += 1;
    }
    proof {
        lemma_find_first(item_views(v@), t@);
    }
    None
}

impl Training {
    /// No stored item is fully done.
    pub open spec fn wf(self) -> bool {
        wf_seq(self@)
    }

    /// Wraps each record in a fresh working-set item, nothing completed yet.
    pub fn from_records(records: Vec<CSVStruct>) -> (t: Training)
        ensures
            t@.len() == records@.len(),
            forall|i: int|
                0 <= i < records@.len() ==> #[trigger] t@[i].csv == records@[i]@ && t@[i].done
                    == (Done { japanese: false, english: false }),
            t.wf(),
    {
        let mut tmp: Vec<TrainingData> = Vec::new();
        let mut j: usize = 0;
        while j < records.len()
            invariant
                j <= records@.len(),
                tmp@.len() == j,
                forall|i: int|
                    0 <= i < j ==> (#[trigger] tmp@[i])@.csv == records@[i]@ && tmp@[i]@.done
                        == (Done { japanese: false, english: false }),
            decreases records@.len() - j,
        {
            tmp.push(TrainingData::from_csvdata(records[j].clone()));
            j += 1;
        }
        proof {
            assert(forall|i: int|
                0 <= i < tmp@.len() ==> #[trigger] item_views(tmp@)[i] == tmp@[i]@);
        }
        Training { training_data: tmp }
    }

    /// Builds a session out of comma-separated text: every loaded record
    /// becomes one working-set item with nothing completed; text that does
    /// not load is a `LoadError`, exactly as `read_data` has it.
    pub fn from_csv(csv_text: &str) -> (r: Result<Training, LoadError>)
        ensures
            match r {
                Ok(t) => t.wf() && (csv_rows(csv_text@) matches Some(rows) && (records_of_rows(
                    rows,
                ) matches Ok(rs) && t@ == fresh_items(rs))),
                Err(e) => match e {
                    LoadError::Parse(_) => csv_rows(csv_text@) is None,
                    _ => csv_rows(csv_text@) matches Some(rows) && records_of_rows(rows) == Err::<
                        Seq<CsvView>,
                        _,
                    >(e),
                },
            },
    {
        let records = match read_data(csv_text) {
            Err(e) => {
                return Err(e);
            },
            Ok(records) => records,
        };
        let t = Training::from_records(records);
        proof {
            let rs = records_of_rows(csv_rows(csv_text@).unwrap()).unwrap();
            assert(rs == crate::csv_struct::record_views(records@));
            assert forall|i: int| 0 <= i < t@.len() implies t@[i] == fresh_items(rs)[i] by {
                assert(t@[i].csv == records@[i]@);
                assert(rs[i] == records@[i]@);
                assert(t@[i].done == (Done { japanese: false, english: false }));
            }
            assert(t@ =~= fresh_items(rs));
        }
        Ok(t)
    }

    /// How many items are still to be learned.
    pub fn len(&self) -> (r: usize)
        ensures
            r == self@.len(),
    {
        self.training_data.len()
    }

    /// Picks a quiz: one stored item at random, and a direction that is not
    /// yet completed for it. A coin names the preferred direction; when that
    /// one is already done, the other is offered instead. The session itself
    /// is left untouched, and `None` comes back only from an empty set.
    pub fn get_random(&mut self) -> (r: Option<(TrainingData, Language)>)
        requires
            old(self).wf(),
        ensures
            final(self)@ == old(self)@,
            r is Some <==> old(self)@.len() > 0,
            r matches Some(pair) ==> (exists|i: int|
                0 <= i < old(self)@.len() && old(self)@[i] == pair.0@) && !dir_done(
                pair.0@.done,
                pair.1,
            ),
    {
        if self.training_data.len() == 0 {
            return None;
        }
        let idx = random_index(self.training_data.len());
        let selected = self.training_data[idx].clone();
        let language = if random_coin() {
            if selected.done.japanese {
                Language::English
            } else {
                Language::Japanese
            }
        } else {
            if selected.done.english {
                Language::Japanese
            } else {
                Language::English
            }
        };
        proof {
            assert(item_views(self.training_data@)[idx as int] == self.training_data@[
                idx as int
            ]@);
        }
        Some((selected, language))
    }

    /// Marks direction `lang` on the first stored item equal to `trained`,
    /// removing it when both directions are thereby done, exactly as
    /// `mark_step` says; an error leaves the working set unchanged.
    pub fn mark_done(&mut self, trained: &TrainingData, lang: Language) -> (r: Result<
        (),
        MarkError,
    >)
        requires
            old(self).wf(),
        ensures
            match r {
                Ok(()) => mark_step(old(self)@, trained@, lang) == Ok::<_, MarkError>(
                    final(self)@,
                ),
                Err(e) => mark_step(old(self)@, trained@, lang) == Err::<Seq<ItemView>, _>(e)
                    && final(self)@ == old(self)@,
            },
            final(self).wf(),
    {
        let ghost pre = self@;
        let i = match find_item(&self.training_data, trained) {
            None => {
                return Err(MarkError::NotFound);
            },
            Some(i) => i,
        };
        proof {
            lemma_find_first(pre, trained@);
            assert(pre[i as int] == self.training_data@[i as int]@);
        }
        let mut item = self.training_data[i].clone();
        match item.mark_done(lang) {
            Err(_) => Err(MarkError::AlreadyDone),
            Ok(()) => {
                proof {
                    assert(pre[i as int] == trained@);
                }
                if item.is_done() {
                    self.training_data.remove(i);
                    proof {
                        assert(self@ =~= pre.remove(i as int));
                    }
                } else {
                    self.training_data[i] = item;
                    proof {
                        assert(self@ =~= pre.update(
                            i as int,
                            ItemView { csv: pre[i as int].csv, done: set_dir(pre[i as int].done, lang) },
                        ));
                    }
                }
                Ok(())
            },
        }
    }
}

} // verus!

