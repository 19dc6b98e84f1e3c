//! The platform-neutral description of something capturable.

use crate::order::{
    dictionary, in_dictionary_order, lemma_dictionary_total, lemma_dictionary_transitive,
    lemma_sorted_map, sort, sorted, Comparable, Ranked,
};
use crate::text::{
    self, decimal, ends, lemma_decimal_injective, lowercase_of, opt_view, texts, truncated,
};
use vstd::prelude::*;

verus! {

/// What kind of thing is being captured. Drives grouping in a picker, and tells
/// the user what they are about to record.
#[derive(Debug, Clone, Copy, PartialEq, Eq, PartialOrd, Ord, Structural)]
pub enum SourceKind {
    /// A real capture device: microphone, line in.
    Microphone,
    /// Everything playing through an output, mixed.
    Monitor,
    /// A single application's playback stream. Linux only.
    Application,
}

impl SourceKind {
    pub open spec fn label_of(self) -> Seq<char> {
        match self {
            SourceKind::Microphone => "Microphone"@,
            SourceKind::Monitor => "System audio"@,
            SourceKind::Application => "Application"@,
        }
    }

    pub fn label(self) -> (r: &'static str)
        ensures
            r@ == self.label_of(),
    {
        match self {
            SourceKind::Microphone => "Microphone",
            SourceKind::Monitor => "System audio",
            SourceKind::Application => "Application",
        }
    }

    /// Place in a picker: microphones, then system audio, then applications.
    pub open spec fn place(self) -> int {
        match self {
            SourceKind::Microphone => 0,
            SourceKind::Monitor => 1,
            SourceKind::Application => 2,
        }
    }

    pub fn rank(self) -> (r: u8)
        ensures
            r == self.place(),
    {
        match self {
            SourceKind::Microphone => 0,
            SourceKind::Monitor => 1,
            SourceKind::Application => 2,
        }
    }
}

/// How to actually open a source, which differs by backend.
#[derive(Debug, PartialEq, Eq)]
pub enum SourceTarget {
    /// A PipeWire node id. Not stable across restarts.
    PipeWireNode(u32),
    /// A cpal device by name. `loopback` means it is an *output* device to be
    /// opened for input, which WASAPI turns into system-audio capture.
    CpalDevice { name: String, loopback: bool },
}

impl Clone for SourceTarget {
    fn clone(&self) -> (r: SourceTarget)
        ensures
            r == *self,
    {
        match self {
            SourceTarget::PipeWireNode(id) => SourceTarget::PipeWireNode(*id),
            SourceTarget::CpalDevice { name, loopback } => SourceTarget::CpalDevice {
                name: name.clone(),
                loopback: *loopback,
            },
        }
    }
}

/// Something that can be captured.
#[derive(Debug, PartialEq, Eq)]
pub struct Source {
    pub target: SourceTarget,
    /// Human-readable name.
    pub name: String,
    pub kind: SourceKind,
    /// What an application is playing, when it says. Firefox reports the tab
    /// title, which is the only way to tell two Firefox streams apart.
    pub detail: Option<String>,
    /// Backend-stable identifier, when one exists. PipeWire `node.name` for
    /// devices; `None` for application streams, which have no stable identity.
    pub stable_name: Option<String>,
    /// For monitors, the underlying output's description. Used to spot a
    /// capture device sharing a name with an output on the same card.
    pub sink_description: Option<String>,
}

impl Clone for Source {
    fn clone(&self) -> (r: Source)
        ensures
            r == *self,
    {
        Source {
            target: self.target.clone(),
            name: self.name.clone(),
            kind: self.kind,
            detail: self.detail.clone(),
            stable_name: self.stable_name.clone(),
            sink_description: self.sink_description.clone(),
        }
    }
}

/// How a source is opened, as plain values.
pub enum TargetView {
    Node(u32),
    Device { name: Seq<char>, loopback: bool },
}

/// A source, as plain values.
pub struct SourceView {
    pub target: TargetView,
    pub name: Seq<char>,
    pub kind: SourceKind,
    pub detail: Option<Seq<char>>,
    pub stable_name: Option<Seq<char>>,
    pub sink_description: Option<Seq<char>>,
}

impl View for Source {
    type V = SourceView;

    open spec fn view(&self) -> SourceView {
        SourceView {
            target: match self.target {
                SourceTarget::PipeWireNode(id) => TargetView::Node(id),
                SourceTarget::CpalDevice { name, loopback } => TargetView::Device {
                    name: name@,
                    loopback,
                },
            },
            name: self.name@,
            kind: self.kind,
            detail: opt_view(self.detail),
            stable_name: opt_view(self.stable_name),
            sink_description: opt_view(self.sink_description),
        }
    }
}

pub open spec fn source_views(v: Seq<Source>) -> Seq<SourceView> {
    v.map_values(|s: Source| s@)
}

/// Picker order: by kind, then by name whatever its case.
impl Ranked for SourceView {
    open spec fn at_most(&self, other: &SourceView) -> bool {
        self.kind.place() < other.kind.place() || (self.kind.place() == other.kind.place()
            && dictionary(lowercase_of(self.name), lowercase_of(other.name)))
    }

    proof fn total(a: &SourceView, b: &SourceView) {
        lemma_dictionary_total(lowercase_of(a.name), lowercase_of(b.name));
    }

    proof fn transitive(a: &SourceView, b: &SourceView, c: &SourceView) {
        if a.kind.place() == b.kind.place() && b.kind.place() == c.kind.place() {
            lemma_dictionary_transitive(
                lowercase_of(a.name),
                lowercase_of(b.name),
                lowercase_of(c.name),
            );
        }
    }
}

impl Ranked for Source {
    open spec fn at_most(&self, other: &Source) -> bool {
        self@.at_most(&other@)
    }

    proof fn total(a: &Source, b: &Source) {
        SourceView::total(&a@, &b@);
    }

    proof fn transitive(a: &Source, b: &Source, c: &Source) {
        SourceView::transitive(&a@, &b@, &c@);
    }
}

impl Comparable for Source {
    fn is_at_most(&self, other: &Source) -> (r: bool) {
        let a: u8 = self.kind.rank();
        let b: u8 = other.kind.rank();
        if a < b {
            true
        } else if a > b {
            false
        } else {
            let x = text::to_lowercase(self.name.as_str());
            let y = text::to_lowercase(other.name.as_str());
            in_dictionary_order(x.as_str(), y.as_str())
        }
    }
}

/// Puts sources in picker order.
pub fn sort_sources(v: Vec<Source>) -> (r: Vec<Source>)
    ensures
        source_views(r@) == sorted(source_views(v@)),
{
    proof {
        lemma_sorted_map(v@, |s: Source| s@);
    }
    sort(v)
}

/// What an application says it is playing, when it says anything.
pub open spec fn shown_detail(detail: Option<String>) -> Option<Seq<char>> {
    match detail {
        Some(d) => if d@.len() > 0 {
            Some(d@)
        } else {
            None
        },
        None => None,
    }
}

/// The key of a stream that has no identity of its own.
pub open spec fn app_key(name: Seq<char>, detail: Option<Seq<char>>) -> Seq<char> {
    match detail {
        Some(d) => "app:"@ + name + ":"@ + d,
        None => "app:"@ + name,
    }
}

/// A name followed by what is playing, when that is known.
pub open spec fn display_of(name: Seq<char>, detail: Option<Seq<char>>) -> Seq<char> {
    match detail {
        Some(d) => name + " — "@ + truncated(d, 48),
        None => name,
    }
}

/// Writes [`app_key`].
pub fn app_key_text(name: &str, detail: &Option<String>) -> (r: String)
    ensures
        r@ == app_key(name@, shown_detail(*detail)),
{
    let mut out = "app:".to_owned();
    out.append(name);
    if let Some(d) = detail {
        if text::chars_of(d.as_str()).len() > 0 {
            out.append(":");
            out.append(d.as_str());
        }
    }
    out
}

/// Writes [`display_of`].
pub fn display_text(name: &str, detail: &Option<String>) -> (r: String)
    ensures
        r@ == display_of(name@, shown_detail(*detail)),
{
    let mut out = name.to_owned();
    if let Some(d) = detail {
        if text::chars_of(d.as_str()).len() > 0 {
            out.append(" — ");
            let cut = text::truncate(d.as_str(), 48);
            out.append(cut.as_str());
        }
    }
    out
}

/// `s` with every trailing copy of `pat` removed.
pub open spec fn without_suffix(s: Seq<char>, pat: Seq<char>) -> Seq<char>
    decreases s.len(),
{
    if pat.len() > 0 && ends(s, pat) {
        without_suffix(s.take(s.len() - pat.len()), pat)
    } else {
        s
    }
}

pub fn strip_suffix(s: &str, pat: &str) -> (r: String)
    requires
        pat@.len() > 0,
    ensures
        r@ == without_suffix(s@, pat@),
{
    let mut cur = s.to_owned();
    let n: usize = text::chars_of(pat).len();
    while text::ends_with(cur.as_str(), pat)
        invariant
            n == pat@.len() > 0,
            without_suffix(s@, pat@) == without_suffix(cur@, pat@),
        decreases cur@.len(),
    {
        let v = text::chars_of(cur.as_str());
        assert(v@.subrange(0, v@.len() - n) == v@.take(v@.len() - n));
        cur = text::string_from(&v, 0, v.len() - n);
    }
    cur
}

impl Source {
    /// Name for a picker, including detail where it disambiguates.
    pub fn display(&self) -> (r: String)
        ensures
            r@ == display_of(self.name@, shown_detail(self.detail)),
    {
        display_text(self.name.as_str(), &self.detail)
    }

    pub open spec fn short(self) -> Seq<char> {
        match self.kind {
            SourceKind::Monitor => "System audio"@,
            SourceKind::Application => self.name@,
            SourceKind::Microphone => truncated(without_suffix(self.name@, " (input)"@), 24),
        }
    }

    /// A compact name for tagging transcript lines.
    ///
    /// `display()` is built for a picker, where the full device name helps you
    /// choose. It is far too long to prefix every line of a transcript with.
    pub fn short_label(&self) -> (r: String)
        ensures
            r@ == self.short(),
    {
        match self.kind {
            SourceKind::Monitor => "System audio".to_owned(),
            SourceKind::Application => self.name.clone(),
            SourceKind::Microphone => {
                proof {
                    reveal_strlit(" (input)");
                }
                let n = strip_suffix(self.name.as_str(), " (input)");
                text::truncate(n.as_str(), 24)
            },
        }
    }

    pub open spec fn key(self) -> Seq<char> {
        match self.stable_name {
            Some(n) => n@,
            None => app_key(self.name@, shown_detail(self.detail)),
        }
    }

    /// A key worth persisting across runs.
    ///
    /// Node ids and device indices are renumbered constantly, so a remembered
    /// choice must never be stored by those. Devices have a stable name;
    /// applications do not, so their display name is the best available handle.
    pub fn stable_key(&self) -> (r: String)
        ensures
            r@ == self.key(),
    {
        if let Some(n) = &self.stable_name {
            return n.clone();
        }
        app_key_text(self.name.as_str(), &self.detail)
    }
}

/// The `k`-th name tried for a source whose compact name is `base`.
pub open spec fn candidate(base: Seq<char>, k: nat) -> Seq<char> {
    if k <= 1 {
        base
    } else {
        base + " "@ + decimal(k)
    }
}

/// Whether `name` is the first candidate for `base` that nobody in `taken`
/// already has.
pub open spec fn first_free(taken: Seq<Seq<char>>, base: Seq<char>, name: Seq<char>) -> bool {
    exists|k: nat|
        1 <= k && name == #[trigger] candidate(base, k) && !taken.contains(candidate(base, k)) && (
        forall|j: nat| 1 <= j < k ==> taken.contains(#[trigger] candidate(base, j)))
}

/// Whether `names` are the labels given to `sources`, in order.
pub open spec fn labels_of(sources: Seq<Source>, names: Seq<Seq<char>>) -> bool {
    &&& names.len() == sources.len()
    &&& forall|i: int|
        0 <= i < names.len() ==> first_free(names.take(i), sources[i].short(), #[trigger] names[i])
}

proof fn lemma_candidate_injective(base: Seq<char>, j: nat, k: nat)
    requires
        1 <= j,
        1 <= k,
        candidate(base, j) == candidate(base, k),
    ensures
        j == k,
{
    reveal_strlit(" ");
    if j <= 1 || k <= 1 {
        assert(candidate(base, j).len() == candidate(base, k).len());
    } else {
        let a = candidate(base, j);
        let b = candidate(base, k);
        assert(a.skip(base.len() as int + 1) == decimal(j));
        assert(b.skip(base.len() as int + 1) == decimal(k));
        lemma_decimal_injective(j, k);
    }
}

/// Among more candidates than names taken, one is free.
proof fn lemma_free_candidate(taken: Seq<Seq<char>>, base: Seq<char>, k: nat)
    requires
        1 <= k,
        forall|j: nat| 1 <= j < k ==> taken.contains(#[trigger] candidate(base, j)),
    ensures
        k <= taken.len() + 1,
{
    let tried = Seq::new((k - 1) as nat, |i: int| candidate(base, (i + 1) as nat));
    assert forall|i: int, j: int| 0 <= i < tried.len() && 0 <= j < tried.len() && i != j implies
        tried[i] != tried[j] by {
        if tried[i] == tried[j] {
            lemma_candidate_injective(base, (i + 1) as nat, (j + 1) as nat);
        }
    }
    tried.unique_seq_to_set();
    assert forall|x: Seq<char>| tried.to_set().contains(x) implies taken.to_set().contains(x) by {
        let i = choose|i: int| 0 <= i < tried.len() && tried[i] == x;
        assert(taken.contains(candidate(base, (i + 1) as nat)));
    }
    taken.lemma_cardinality_of_set();
    vstd::set_lib::lemma_len_subset(tried.to_set(), taken.to_set());
}

fn is_taken(names: &Vec<String>, name: &str) -> (r: bool)
    ensures
        r == texts(names@).contains(name@),
{
    let mut i: usize = 0;
    while i < names.len()
        invariant
            i <= names@.len(),
            forall|j: int| 0 <= j < i ==> texts(names@)[j] != name@,
        decreases names@.len() - i,
    {
        if text::same(names[i].as_str(), name) {
            assert(texts(names@)[i as int] == name@);
            return true;
        }
        i += 1;
    }
    false
}

/// Compact names for a whole set of sources, with collisions broken apart.
///
/// [`Source::short_label`] answers for one source and cannot see the others,
/// so every monitor comes back as "System audio" and two microphones sharing
/// their first 24 characters come back identical. Each source's stream file is
/// named from this, so two sources under one name would write into one file.
///
/// The first source to claim a name keeps it.
pub fn short_labels(sources: &[Source]) -> (r: Vec<String>)
    ensures
        labels_of(sources@, texts(r@)),
{
    let mut out: Vec<String> = Vec::new();
    let mut i: usize = 0;
    while i < sources.len()
        invariant
            i <= sources@.len(),
            out@.len() == i,
            labels_of(sources@.take(i as int), texts(out@)),
        decreases sources@.len() - i,
    {
        let base = sources[i].short_label();
        let mut name = base.clone();
        let mut n: u64 = 1;
        let total: usize = sources.len();
        let ghost taken = texts(out@);
        while is_taken(&out, name.as_str())
            invariant
                taken == texts(out@),
                taken.len() == i < total,
                1 <= n <= i + 1,
                name@ == candidate(base@, n as nat),
                forall|j: nat| 1 <= j < n ==> taken.contains(#[trigger] candidate(base@, j)),
            decreases i + 2 - n,
        {
            assert forall|j: nat| 1 <= j < n + 1 implies taken.contains(
                #[trigger] candidate(base@, j),
            ) by {}
            proof {
                lemma_free_candidate(taken, base@, (n + 1) as nat);
            }
            n += 1;
            name = base.clone();
            name.append(" ");
            let digits = text::decimal_text(n);
            name.append(digits.as_str());
        }
        let ghost chosen = name@;
        let ghost was = out@;
        assert(first_free(taken, base@, chosen));
        out.push(name);
        proof {
            let now = texts(out@);
            assert(now == taken.push(chosen));
            assert forall|j: int| 0 <= j < now.len() implies first_free(
                now.take(j),
                sources@.take(i + 1)[j].short(),
                #[trigger] now[j],
            ) by {
                assert(now.take(j) == taken.take(j));
                if j < i {
                    assert(now[j] == taken[j]);
                    assert(sources@.take(i + 1)[j] == sources@.take(i as int)[j]);
                } else {
                    assert(taken.take(j) == taken);
                }
            }
        }
        i += 1;
    }
    assert(sources@.take(i as int) == sources@);
    out
}

/// No two sources are ever given one name.
pub proof fn lemma_labels_distinct(sources: Seq<Source>, names: Seq<Seq<char>>)
    requires
        labels_of(sources, names),
    ensures
        forall|i: int, j: int| 0 <= i < j < names.len() ==> names[i] != names[j],
{
    assert forall|i: int, j: int| 0 <= i < j < names.len() implies names[i] != names[j] by {
        assert(first_free(names.take(j), sources[j].short(), names[j]));
        assert(names.take(j)[i] == names[i]);
    }
}

/// A source whose compact name nobody before it shares keeps that name.
pub proof fn lemma_first_claim_keeps_the_name(sources: Seq<Source>, names: Seq<Seq<char>>, i: int)
    requires
        labels_of(sources, names),
        0 <= i < sources.len(),
        forall|j: int| 0 <= j < i ==> names[j] != sources[i].short(),
    ensures
        names[i] == sources[i].short(),
{
    let base = sources[i].short();
    assert(first_free(names.take(i), base, names[i]));
    let k = choose|k: nat|
        1 <= k && names[i] == #[trigger] candidate(base, k) && !names.take(i).contains(
            candidate(base, k),
        ) && (forall|j: nat| 1 <= j < k ==> names.take(i).contains(#[trigger] candidate(base, j)));
    if k > 1 {
        assert(names.take(i).contains(candidate(base, 1)));
    }
}

/// The labels of a list of sources are determined by the list.
pub proof fn lemma_labels_unique(sources: Seq<Source>, a: Seq<Seq<char>>, b: Seq<Seq<char>>)
    requires
        labels_of(sources, a),
        labels_of(sources, b),
    ensures
        a == b,
    decreases sources.len(),
{
    if sources.len() > 0 {
        let n = sources.len() - 1;
        assert forall|i: int| 0 <= i < n implies first_free(
            a.take(n).take(i),
            sources.take(n)[i].short(),
            #[trigger] a.take(n)[i],
        ) by {
            assert(a.take(n).take(i) == a.take(i));
            assert(first_free(a.take(i), sources[i].short(), a[i]));
        }
        assert forall|i: int| 0 <= i < n implies first_free(
            b.take(n).take(i),
            sources.take(n)[i].short(),
            #[trigger] b.take(n)[i],
        ) by {
            assert(b.take(n).take(i) == b.take(i));
            assert(first_free(b.take(i), sources[i].short(), b[i]));
        }
        lemma_labels_unique(sources.take(n), a.take(n), b.take(n));
        let base = sources[n].short();
        let taken = a.take(n);
        assert(first_free(a.take(n), base, a[n]));
        assert(first_free(b.take(n), base, b[n]));
        let j = choose|k: nat|
            1 <= k && a[n] == #[trigger] candidate(base, k) && !taken.contains(candidate(base, k))
                && (forall|m: nat| 1 <= m < k ==> taken.contains(#[trigger] candidate(base, m)));
        let k = choose|k: nat|
            1 <= k && b[n] == #[trigger] candidate(base, k) && !taken.contains(candidate(base, k))
                && (forall|m: nat| 1 <= m < k ==> taken.contains(#[trigger] candidate(base, m)));
        if j < k {
            assert(taken.contains(candidate(base, j)));
        } else if k < j {
            assert(taken.contains(candidate(base, k)));
        }
        assert(a == a.take(n).push(a[n]));
        assert(b == b.take(n).push(b[n]));
    }
}

/// A picker lists microphones first, then outputs, then applications.
pub proof fn lemma_microphones_come_first()
    ensures
        SourceKind::Microphone.place() < SourceKind::Monitor.place(),
        SourceKind::Monitor.place() < SourceKind::Application.place(),
{
}

/// Taking an ending off takes every copy of it and nothing else.
pub proof fn lemma_only_the_ending_is_taken_off(s: Seq<char>, pat: Seq<char>)
    requires
        pat.len() > 0,
    ensures
        without_suffix(s, pat).len() <= s.len(),
        s.take(without_suffix(s, pat).len() as int) == without_suffix(s, pat),
        !ends(without_suffix(s, pat), pat),
        !ends(s, pat) ==> without_suffix(s, pat) == s,
        without_suffix(s + pat, pat) == without_suffix(s, pat),
    decreases s.len(),
{
    let whole = s + pat;
    assert(whole.skip(whole.len() - pat.len()) =~= pat);
    assert(whole.take(whole.len() - pat.len()) =~= s);
    if ends(s, pat) {
        let t = s.take(s.len() - pat.len());
        lemma_only_the_ending_is_taken_off(t, pat);
        let n = without_suffix(s, pat).len() as int;
        assert(t.take(n) =~= s.take(n));
    } else {
        assert(s.take(s.len() as int) =~= s);
    }
}

/// A line's tag is the source's own name, short enough for one: an application's
/// as it is, an output's always the same, a microphone's cut to length and
/// without what only told it apart in a picker.
pub proof fn lemma_a_label_is_short(s: Source, marked: Source)
    requires
        s.kind == marked.kind,
        marked.name@ == s.name@ + " (input)"@,
    ensures
        s.kind == SourceKind::Monitor ==> s.short() == "System audio"@,
        s.kind == SourceKind::Application ==> s.short() == s.name@,
        s.kind == SourceKind::Microphone ==> ({
            &&& s.short().len() <= 24
            &&& marked.short() == s.short()
            &&& s.name@.len() <= 24 && !ends(s.name@, " (input)"@) ==> s.short() == s.name@
        }),
{
    reveal_strlit(" (input)");
    lemma_only_the_ending_is_taken_off(s.name@, " (input)"@);
}

/// The first source of a name has it to itself, and the others have it with a
/// number behind it that tells them apart.
pub proof fn lemma_a_numbered_label_keeps_the_name(base: Seq<char>, j: nat, k: nat)
    requires
        1 <= j,
        1 <= k,
    ensures
        candidate(base, 1) == base,
        text::begins(candidate(base, k), base),
        k > 1 ==> ends(candidate(base, k), decimal(k)),
        candidate(base, j) == candidate(base, k) ==> j == k,
{
    let c = candidate(base, k);
    assert(c.take(base.len() as int) =~= base);
    if k > 1 {
        assert(c.skip(c.len() - decimal(k).len()) =~= decimal(k));
    }
    if candidate(base, j) == candidate(base, k) {
        lemma_candidate_injective(base, j, k);
    }
}

/// A source is remembered by what stays: its own stable name where it has one,
/// and otherwise its name and what it says it plays, each of which tells two
/// sources apart.
pub proof fn lemma_a_key_is_what_stays(s: Source, t: Source)
    ensures
        s.stable_name is Some ==> s.key() == s.stable_name->0@,
        s.stable_name is None ==> text::occurs_in(s.name@, s.key()) && text::begins(
            s.key(),
            "app:"@,
        ),
        s.stable_name is None && t.stable_name is None && s.name@ == t.name@ && s.detail is Some
            && t.detail is Some && s.detail->0@.len() > 0 && t.detail->0@.len() > 0 && s.key()
            == t.key() ==> s.detail->0@ == t.detail->0@,
        s.stable_name is None && t.stable_name is None && s.detail is None && t.detail is None
            && s.key() == t.key() ==> s.name@ == t.name@,
{
    reveal_strlit("app:");
    reveal_strlit(":");
    let a = "app:"@;
    let k = s.key();
    if s.stable_name is None {
        let i: int = a.len() as int;
        assert(k.subrange(i, i + s.name@.len()) =~= s.name@);
        assert(k.take(a.len() as int) =~= a);
    }
    if s.stable_name is None && t.stable_name is None && s.name@ == t.name@ && s.detail is Some
        && t.detail is Some && s.detail->0@.len() > 0 && t.detail->0@.len() > 0 && s.key()
        == t.key() {
        let n = a.len() + s.name@.len() + 1;
        assert(s.detail->0@ =~= s.key().skip(n as int));
        assert(t.detail->0@ =~= t.key().skip(n as int));
    }
    if s.stable_name is None && t.stable_name is None && s.detail is None && t.detail is None
        && s.key() == t.key() {
        assert(s.name@ =~= s.key().skip(a.len() as int));
        assert(t.name@ =~= t.key().skip(a.len() as int));
    }
}

/// A picker shows a source by its name, and what it plays after it where it
/// says, however long that is.
pub proof fn lemma_a_picker_shows_name_and_detail(name: Seq<char>, detail: Seq<char>)
    ensures
        display_of(name, None) == name,
        text::begins(display_of(name, Some(detail)), name),
        detail.len() <= 48 ==> ends(display_of(name, Some(detail)), detail),
        display_of(name, Some(detail)).len() <= name.len() + 3 + 48,
{
    reveal_strlit(" — ");
    let d = display_of(name, Some(detail));
    assert(d.take(name.len() as int) =~= name);
    if detail.len() <= 48 {
        assert(d.skip(d.len() - detail.len()) =~= detail);
    }
}

/// A detail that says nothing is no detail.
pub proof fn lemma_an_empty_detail_is_none(d: String)
    ensures
        d@.len() == 0 ==> shown_detail(Some(d)) is None,
        d@.len() > 0 ==> shown_detail(Some(d)) == Some(d@),
        shown_detail(None) is None,
{
}

} // verus!
