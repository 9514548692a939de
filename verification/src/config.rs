//! The configuration tab: its sections and edit state, and editable drafts of
//! the configuration that convert to and from the stored form.
use vstd::prelude::*;
use crate::entry::{opt_text, texts};
use crate::number::{decimal, format_usize, law_parse_decimal, parse_usize, parsed_usize};
use crate::text::{chars_of, clone_strings, is_word, lemma_words_of_spaced, lemma_words_of_word, push_char, split_whitespace, words};

verus! {

/// When a process is restarted after it exits.
#[derive(Debug, Clone, Copy, PartialEq, Eq, Structural)]
pub enum RestartPolicy {
    Never,
    OnFailure,
    Always,
}

impl Default for RestartPolicy {
    fn default() -> (p: Self)
        ensures
            p == RestartPolicy::Never,
    {
        RestartPolicy::Never
    }
}

/// A section of the configuration tab.
#[derive(Debug, Clone, Copy, PartialEq, Eq, Structural)]
pub enum ConfigSection {
    Disabled,
    Overrides,
    Custom,
    Sail,
    Logs,
    QualityDisabledTools,
    QualityCustomTools,
    QualityDefaultArgs,
    ArtisanFavorites,
    MakeFavorites,
}

/// The sections in tab order.
pub open spec fn all_sections() -> Seq<ConfigSection> {
    seq![
        ConfigSection::Disabled,
        ConfigSection::Overrides,
        ConfigSection::Custom,
        ConfigSection::Sail,
        ConfigSection::Logs,
        ConfigSection::QualityDisabledTools,
        ConfigSection::QualityCustomTools,
        ConfigSection::QualityDefaultArgs,
        ConfigSection::ArtisanFavorites,
        ConfigSection::MakeFavorites,
    ]
}

/// Position of a section in tab order.
pub open spec fn section_index(s: ConfigSection) -> nat {
    match s {
        ConfigSection::Disabled => 0,
        ConfigSection::Overrides => 1,
        ConfigSection::Custom => 2,
        ConfigSection::Sail => 3,
        ConfigSection::Logs => 4,
        ConfigSection::QualityDisabledTools => 5,
        ConfigSection::QualityCustomTools => 6,
        ConfigSection::QualityDefaultArgs => 7,
        ConfigSection::ArtisanFavorites => 8,
        ConfigSection::MakeFavorites => 9,
    }
}

/// The section at a position; positions past the last give the first section.
pub open spec fn section_at(i: int) -> ConfigSection {
    if 0 <= i < 10 {
        all_sections()[i]
    } else {
        ConfigSection::Disabled
    }
}

/// Display name of a section.
pub open spec fn section_name(s: ConfigSection) -> Seq<char> {
    match s {
        ConfigSection::Disabled => "Disabled"@,
        ConfigSection::Overrides => "Overrides"@,
        ConfigSection::Custom => "Custom"@,
        ConfigSection::Sail => "Sail"@,
        ConfigSection::Logs => "Logs"@,
        ConfigSection::QualityDisabledTools => "Disabled Tools"@,
        ConfigSection::QualityCustomTools => "Custom Tools"@,
        ConfigSection::QualityDefaultArgs => "Default Args"@,
        ConfigSection::ArtisanFavorites => "Artisan Favs"@,
        ConfigSection::MakeFavorites => "Make Favs"@,
    }
}

impl Default for ConfigSection {
    fn default() -> (s: Self)
        ensures
            s == ConfigSection::Disabled,
    {
        ConfigSection::Disabled
    }
}

impl ConfigSection {
    /// All sections, in tab order.
    pub fn all() -> (v: &'static [ConfigSection])
        ensures
            v@ == all_sections(),
    {
        let v: &'static [ConfigSection] = &[
            ConfigSection::Disabled,
            ConfigSection::Overrides,
            ConfigSection::Custom,
            ConfigSection::Sail,
            ConfigSection::Logs,
            ConfigSection::QualityDisabledTools,
            ConfigSection::QualityCustomTools,
            ConfigSection::QualityDefaultArgs,
            ConfigSection::ArtisanFavorites,
            ConfigSection::MakeFavorites,
        ];
        assert(v@ =~= all_sections());
        v
    }

    /// Display name.
    pub fn name(&self) -> (s: &'static str)
        ensures
            s@ == section_name(*self),
    {
        match self {
            ConfigSection::Disabled => "Disabled",
            ConfigSection::Overrides => "Overrides",
            ConfigSection::Custom => "Custom",
            ConfigSection::Sail => "Sail",
            ConfigSection::Logs => "Logs",
            ConfigSection::QualityDisabledTools => "Disabled Tools",
            ConfigSection::QualityCustomTools => "Custom Tools",
            ConfigSection::QualityDefaultArgs => "Default Args",
            ConfigSection::ArtisanFavorites => "Artisan Favs",
            ConfigSection::MakeFavorites => "Make Favs",
        }
    }

    /// Position in tab order.
    pub fn index(&self) -> (i: usize)
        ensures
            i == section_index(*self),
    {
        match self {
            ConfigSection::Disabled => 0,
            ConfigSection::Overrides => 1,
            ConfigSection::Custom => 2,
            ConfigSection::Sail => 3,
            ConfigSection::Logs => 4,
            ConfigSection::QualityDisabledTools => 5,
            ConfigSection::QualityCustomTools => 6,
            ConfigSection::QualityDefaultArgs => 7,
            ConfigSection::ArtisanFavorites => 8,
            ConfigSection::MakeFavorites => 9,
        }
    }

    /// The section at a position; out-of-range positions give `Disabled`.
    pub fn from_index(index: usize) -> (s: ConfigSection)
        ensures
            s == section_at(index as int),
    {
        match index {
            0 => ConfigSection::Disabled,
            1 => ConfigSection::Overrides,
            2 => ConfigSection::Custom,
            3 => ConfigSection::Sail,
            4 => ConfigSection::Logs,
            5 => ConfigSection::QualityDisabledTools,
            6 => ConfigSection::QualityCustomTools,
            7 => ConfigSection::QualityDefaultArgs,
            8 => ConfigSection::ArtisanFavorites,
            9 => ConfigSection::MakeFavorites,
            _ => ConfigSection::Disabled,
        }
    }
}

/// A section's position leads back to it, and `all` lists each section at its
/// position: positions and sections correspond one to one over `0..10`.
pub proof fn law_section_index_round_trip(s: ConfigSection, i: int)
    ensures
        section_index(s) < all_sections().len(),
        section_at(section_index(s) as int) == s,
        all_sections()[section_index(s) as int] == s,
        0 <= i < 10 ==> section_index(section_at(i)) == i,
{
}

/// Which panel has focus in the configuration tab.
#[derive(Debug, Clone, Copy, PartialEq, Eq, Structural)]
pub enum ConfigFocus {
    Sections,
    Details,
}

/// Edit mode of the configuration tab.
#[derive(Debug, Clone, Copy, PartialEq, Eq, Structural)]
pub enum ConfigEditMode {
    Browse,
    EditText,
    SelectOption,
    Confirm,
}

/// Whether the details panel lists items or the fields of one item.
#[derive(Debug, Clone, Copy, PartialEq, Eq, Structural)]
pub enum ConfigDetailView {
    ItemList,
    ItemFields,
}

impl Default for ConfigFocus {
    fn default() -> (f: Self)
        ensures
            f == ConfigFocus::Sections,
    {
        ConfigFocus::Sections
    }
}

impl Default for ConfigEditMode {
    fn default() -> (m: Self)
        ensures
            m == ConfigEditMode::Browse,
    {
        ConfigEditMode::Browse
    }
}

impl Default for ConfigDetailView {
    fn default() -> (v: Self)
        ensures
            v == ConfigDetailView::ItemList,
    {
        ConfigDetailView::ItemList
    }
}

/// Editable copy of the flags that disable the standard processes.
#[derive(Debug, Clone)]
pub struct DisabledDraft {
    pub serve: bool,
    pub vite: bool,
    pub queue: bool,
    pub horizon: bool,
    pub reverb: bool,
}

/// The flag at a position of the process list (serve, vite, queue, horizon, reverb).
pub open spec fn disabled_flag(d: DisabledDraft, index: int) -> bool {
    if index == 0 {
        d.serve
    } else if index == 1 {
        d.vite
    } else if index == 2 {
        d.queue
    } else if index == 3 {
        d.horizon
    } else {
        d.reverb
    }
}

/// The flags with the one at `index` flipped (none for positions past the list).
pub open spec fn toggled(d: DisabledDraft, index: int) -> DisabledDraft {
    DisabledDraft {
        serve: if index == 0 { !d.serve } else { d.serve },
        vite: if index == 1 { !d.vite } else { d.vite },
        queue: if index == 2 { !d.queue } else { d.queue },
        horizon: if index == 3 { !d.horizon } else { d.horizon },
        reverb: if index == 4 { !d.reverb } else { d.reverb },
    }
}

/// Flipping the same flag twice restores the flags.
pub proof fn law_toggle_twice(d: DisabledDraft, index: int)
    ensures
        toggled(toggled(d, index), index) == d,
{
}

/// Labels of the process list.
pub open spec fn process_labels() -> Seq<Seq<char>> {
    seq!["Serve"@, "Vite"@, "Queue"@, "Horizon"@, "Reverb"@]
}

impl Default for DisabledDraft {
    fn default() -> (d: Self)
        ensures
            !d.serve && !d.vite && !d.queue && !d.horizon && !d.reverb,
    {
        DisabledDraft { serve: false, vite: false, queue: false, horizon: false, reverb: false }
    }
}

impl DisabledDraft {
    /// Each process with its flag, in list order.
    pub fn items(&self) -> (r: [(&'static str, bool); 5])
        ensures
            forall|i: int| 0 <= i < 5 ==> (#[trigger] r@[i]).0@ == process_labels()[i] && r@[i].1 == disabled_flag(*self, i),
    {
        let r = [("Serve", self.serve), ("Vite", self.vite), ("Queue", self.queue), ("Horizon", self.horizon), ("Reverb", self.reverb)];
        proof {
            reveal_strlit("Serve");
            reveal_strlit("Vite");
            reveal_strlit("Queue");
            reveal_strlit("Horizon");
            reveal_strlit("Reverb");
        }
        r
    }

    /// Flips the flag at `index`; other positions change nothing.
    pub fn toggle(&mut self, index: usize)
        ensures
            *final(self) == toggled(*old(self), index as int),
            forall|i: int| 0 <= i < 5 ==> #[trigger] disabled_flag(*final(self), i) == (if i == index { !disabled_flag(*old(self), i) } else { disabled_flag(*old(self), i) }),
            index >= 5 ==> *final(self) == *old(self),
    {
        match index {
            0 => self.serve = !self.serve,
            1 => self.vite = !self.vite,
            2 => self.queue = !self.queue,
            3 => self.horizon = !self.horizon,
            4 => self.reverb = !self.reverb,
            _ => {},
        }
    }
}


/// `(name, value)` pairs by their characters.
pub open spec fn pair_texts(v: Seq<(String, String)>) -> Seq<(Seq<char>, Seq<char>)> {
    v.map_values(|p: (String, String)| (p.0@, p.1@))
}

/// Words joined with one space between them.
pub open spec fn join_words(ws: Seq<Seq<char>>) -> Seq<char>
    decreases ws.len(),
{
    if ws.len() == 0 {
        seq![]
    } else if ws.len() == 1 {
        ws[0]
    } else {
        join_words(ws.drop_last()) + seq![' '] + ws.last()
    }
}

/// Joins strings with single spaces (`[String]::join(" ")`).
pub fn join_spaced(parts: &Vec<String>) -> (s: String)
    ensures
        s@ == join_words(texts(parts@)),
{
    let ghost all = texts(parts@);
    let mut s = String::new();
    let mut k: usize = 0;
    while k < parts.len()
        invariant
            all == texts(parts@),
            0 <= k <= parts.len(),
            s@ == join_words(all.take(k as int)),
        decreases parts.len() - k,
    {
        proof {
            assert(all.take(k + 1).drop_last() =~= all.take(k as int));
        }
        if k > 0 {
            push_char(&mut s, ' ');
        } else {
            assert(all.take(0) =~= Seq::<Seq<char>>::empty());
        }
        s.append(parts[k].as_str());
        k += 1;
    }
    assert(all.take(parts.len() as int) =~= all);
    s
}

/// Copies `(name, value)` pairs.
pub fn clone_pairs(v: &Vec<(String, String)>) -> (r: Vec<(String, String)>)
    ensures
        pair_texts(r@) == pair_texts(v@),
{
    let mut r: Vec<(String, String)> = Vec::new();
    let mut i: usize = 0;
    while i < v.len()
        invariant
            0 <= i <= v.len(),
            pair_texts(r@) == pair_texts(v@).take(i as int),
        decreases v.len() - i,
    {
        let ghost before = r@;
        r.push((v[i].0.clone(), v[i].1.clone()));
        assert(pair_texts(r@) =~= pair_texts(before).push((v@[i as int].0@, v@[i as int].1@)));
        assert(pair_texts(v@).take(i + 1) =~= pair_texts(v@).take(i as int).push((v@[i as int].0@, v@[i as int].1@)));
        i += 1;
    }
    assert(pair_texts(v@).take(v.len() as int) =~= pair_texts(v@));
    r
}

/// The text of an optional string, or the empty text.
pub open spec fn text_or_empty(o: Option<Seq<char>>) -> Seq<char> {
    match o {
        Some(t) => t,
        None => seq![],
    }
}

/// `None` for the empty text, else the text.
pub open spec fn nonempty_text(t: Seq<char>) -> Option<Seq<char>> {
    if t.len() == 0 {
        None
    } else {
        Some(t)
    }
}

fn string_or_empty(o: &Option<String>) -> (s: String)
    ensures
        s@ == text_or_empty(opt_text(*o)),
{
    match o {
        Some(t) => t.clone(),
        None => String::new(),
    }
}

fn nonempty_string(t: &String) -> (r: Option<String>)
    ensures
        opt_text(r) == nonempty_text(t@),
{
    if t.as_str().is_empty() {
        None
    } else {
        Some(t.clone())
    }
}

/// Per-process overrides of how a standard process is run.
#[derive(Debug, Clone)]
pub struct OverrideConfig {
    pub command: Option<String>,
    pub args: Option<Vec<String>>,
    pub working_dir: Option<String>,
    pub env: Option<Vec<(String, String)>>,
    pub restart_policy: Option<RestartPolicy>,
}

/// An override by its plain values.
pub struct OverrideView {
    pub command: Option<Seq<char>>,
    pub args: Option<Seq<Seq<char>>>,
    pub working_dir: Option<Seq<char>>,
    pub env: Option<Seq<(Seq<char>, Seq<char>)>>,
    pub restart_policy: Option<RestartPolicy>,
}

impl View for OverrideConfig {
    type V = OverrideView;

    open spec fn view(&self) -> OverrideView {
        OverrideView {
            command: opt_text(self.command),
            args: match self.args {
                Some(a) => Some(texts(a@)),
                None => None,
            },
            working_dir: opt_text(self.working_dir),
            env: match self.env {
                Some(e) => Some(pair_texts(e@)),
                None => None,
            },
            restart_policy: self.restart_policy,
        }
    }
}

/// Editable copy of an override: each field as text.
#[derive(Debug, Clone)]
pub struct OverrideDraft {
    pub command: String,
    pub args: String,
    pub working_dir: String,
    pub env: Vec<(String, String)>,
    pub restart_policy: RestartPolicy,
}

/// An override draft by its plain values.
pub struct OverrideDraftView {
    pub command: Seq<char>,
    pub args: Seq<char>,
    pub working_dir: Seq<char>,
    pub env: Seq<(Seq<char>, Seq<char>)>,
    pub restart_policy: RestartPolicy,
}

impl View for OverrideDraft {
    type V = OverrideDraftView;

    open spec fn view(&self) -> OverrideDraftView {
        OverrideDraftView {
            command: self.command@,
            args: self.args@,
            working_dir: self.working_dir@,
            env: pair_texts(self.env@),
            restart_policy: self.restart_policy,
        }
    }
}

/// The draft of an override: absent fields become empty text (arguments
/// joined with spaces) and an absent policy becomes `Never`.
pub open spec fn override_draft_of(c: OverrideView) -> OverrideDraftView {
    OverrideDraftView {
        command: text_or_empty(c.command),
        args: match c.args {
            Some(a) => join_words(a),
            None => seq![],
        },
        working_dir: text_or_empty(c.working_dir),
        env: match c.env {
            Some(e) => e,
            None => seq![],
        },
        restart_policy: match c.restart_policy {
            Some(p) => p,
            None => RestartPolicy::Never,
        },
    }
}

/// Whether a draft sets nothing.
pub open spec fn override_draft_empty(d: OverrideDraftView) -> bool {
    &&& d.command.len() == 0
    &&& d.args.len() == 0
    &&& d.working_dir.len() == 0
    &&& d.env.len() == 0
    &&& d.restart_policy == RestartPolicy::Never
}

/// The override a draft stands for: none when it sets nothing; otherwise
/// empty fields are absent, the arguments are split at white space, and
/// `Never` is absent.
pub open spec fn override_of(d: OverrideDraftView) -> Option<OverrideView> {
    if override_draft_empty(d) {
        None
    } else {
        Some(
            OverrideView {
                command: nonempty_text(d.command),
                args: if d.args.len() == 0 {
                    None
                } else {
                    Some(words(d.args))
                },
                working_dir: nonempty_text(d.working_dir),
                env: if d.env.len() == 0 {
                    None
                } else {
                    Some(d.env)
                },
                restart_policy: if d.restart_policy == RestartPolicy::Never {
                    None
                } else {
                    Some(d.restart_policy)
                },
            },
        )
    }
}

/// The empty override draft.
pub open spec fn empty_override_draft() -> OverrideDraftView {
    OverrideDraftView { command: seq![], args: seq![], working_dir: seq![], env: seq![], restart_policy: RestartPolicy::Never }
}

impl Default for OverrideDraft {
    fn default() -> (d: Self)
        ensures
            d@ == empty_override_draft(),
    {
        let d = OverrideDraft {
            command: String::new(),
            args: String::new(),
            working_dir: String::new(),
            env: Vec::new(),
            restart_policy: RestartPolicy::Never,
        };
        assert(d@.env =~= Seq::<(Seq<char>, Seq<char>)>::empty());
        d
    }
}

impl OverrideDraft {
    /// The draft of a stored override.
    pub fn from_override(cfg: &OverrideConfig) -> (d: Self)
        ensures
            d@ == override_draft_of(cfg@),
    {
        let args = match &cfg.args {
            Some(a) => join_spaced(a),
            None => String::new(),
        };
        let env = match &cfg.env {
            Some(e) => clone_pairs(e),
            None => Vec::new(),
        };
        let restart_policy = match cfg.restart_policy {
            Some(p) => p,
            None => RestartPolicy::Never,
        };
        let d = OverrideDraft {
            command: string_or_empty(&cfg.command),
            args,
            working_dir: string_or_empty(&cfg.working_dir),
            env,
            restart_policy,
        };
        assert(d@.env =~= override_draft_of(cfg@).env);
        d
    }

    /// The override this draft stands for, or `None` when it sets nothing.
    pub fn to_override(&self) -> (r: Option<OverrideConfig>)
        ensures
            match r {
                Some(c) => override_of(self@) == Some(c@),
                None => override_of(self@) is None,
            },
    {
        if self.is_empty() {
            return None;
        }
        let args = if self.args.as_str().is_empty() {
            None
        } else {
            Some(split_whitespace(self.args.as_str()))
        };
        let env = if self.env.len() == 0 {
            None
        } else {
            Some(clone_pairs(&self.env))
        };
        let c = OverrideConfig {
            command: nonempty_string(&self.command),
            args,
            working_dir: nonempty_string(&self.working_dir),
            env,
            restart_policy: if self.restart_policy == RestartPolicy::Never {
                None
            } else {
                Some(self.restart_policy)
            },
        };
        proof {
            if self.env@.len() == 0 {
                assert(pair_texts(self.env@) =~= Seq::<(Seq<char>, Seq<char>)>::empty());
            }
        }
        Some(c)
    }

    /// Whether the draft sets nothing.
    pub fn is_empty(&self) -> (b: bool)
        ensures
            b == override_draft_empty(self@),
    {
        self.command.as_str().is_empty() && self.args.as_str().is_empty() && self.working_dir.as_str().is_empty() && self.env.len() == 0
            && self.restart_policy == RestartPolicy::Never
    }
}


/// The words of a draft's argument text (none for the empty text).
pub open spec fn args_of(t: Seq<char>) -> Seq<Seq<char>> {
    if t.len() == 0 {
        seq![]
    } else {
        words(t)
    }
}

/// The text of an optional hotkey: the key alone, or empty.
pub open spec fn hotkey_text(k: Option<char>) -> Seq<char> {
    match k {
        Some(c) => seq![c],
        None => seq![],
    }
}

/// The hotkey a draft's text names: its first character, if any.
pub open spec fn hotkey_of(t: Seq<char>) -> Option<char> {
    if t.len() == 0 {
        None
    } else {
        Some(t[0])
    }
}

/// The restart policy as stored: `Never` is left out.
pub open spec fn stored_policy(p: RestartPolicy) -> Option<RestartPolicy> {
    if p == RestartPolicy::Never {
        None
    } else {
        Some(p)
    }
}

/// The policy a stored one stands for: absent is `Never`.
pub open spec fn policy_or_never(p: Option<RestartPolicy>) -> RestartPolicy {
    match p {
        Some(q) => q,
        None => RestartPolicy::Never,
    }
}

/// Optional pairs by their characters.
pub open spec fn opt_pairs(o: Option<Vec<(String, String)>>) -> Option<Seq<(Seq<char>, Seq<char>)>> {
    match o {
        Some(e) => Some(pair_texts(e@)),
        None => None,
    }
}

/// Pairs, or none when there are none.
pub open spec fn nonempty_pairs(e: Seq<(Seq<char>, Seq<char>)>) -> Option<Seq<(Seq<char>, Seq<char>)>> {
    if e.len() == 0 {
        None
    } else {
        Some(e)
    }
}

/// Pairs of an optional list, or none.
pub open spec fn pairs_or_empty(o: Option<Seq<(Seq<char>, Seq<char>)>>) -> Seq<(Seq<char>, Seq<char>)> {
    match o {
        Some(e) => e,
        None => seq![],
    }
}

fn words_of_draft(t: &String) -> (v: Vec<String>)
    ensures
        texts(v@) == args_of(t@),
{
    if t.as_str().is_empty() {
        let v: Vec<String> = Vec::new();
        assert(texts(v@) =~= Seq::<Seq<char>>::empty());
        v
    } else {
        split_whitespace(t.as_str())
    }
}

fn optional_pairs(e: &Vec<(String, String)>) -> (r: Option<Vec<(String, String)>>)
    ensures
        opt_pairs(r) == nonempty_pairs(pair_texts(e@)),
{
    if e.len() == 0 {
        None
    } else {
        Some(clone_pairs(e))
    }
}

fn pairs_or_none(o: &Option<Vec<(String, String)>>) -> (r: Vec<(String, String)>)
    ensures
        pair_texts(r@) == pairs_or_empty(opt_pairs(*o)),
{
    match o {
        Some(e) => clone_pairs(e),
        None => {
            let r: Vec<(String, String)> = Vec::new();
            assert(pair_texts(r@) =~= Seq::<(Seq<char>, Seq<char>)>::empty());
            r
        },
    }
}

fn stored_policy_exec(p: RestartPolicy) -> (r: Option<RestartPolicy>)
    ensures
        r == stored_policy(p),
{
    if p == RestartPolicy::Never {
        None
    } else {
        Some(p)
    }
}

/// A user-defined process.
#[derive(Debug, Clone)]
pub struct CustomProcess {
    pub name: String,
    pub display_name: String,
    pub command: String,
    pub args: Vec<String>,
    pub hotkey: Option<char>,
    pub enabled: bool,
    pub working_dir: Option<String>,
    pub env: Option<Vec<(String, String)>>,
    pub restart_policy: Option<RestartPolicy>,
}

/// A custom process by its plain values.
pub struct CustomProcessView {
    pub name: Seq<char>,
    pub display_name: Seq<char>,
    pub command: Seq<char>,
    pub args: Seq<Seq<char>>,
    pub hotkey: Option<char>,
    pub enabled: bool,
    pub working_dir: Option<Seq<char>>,
    pub env: Option<Seq<(Seq<char>, Seq<char>)>>,
    pub restart_policy: Option<RestartPolicy>,
}

impl View for CustomProcess {
    type V = CustomProcessView;

    open spec fn view(&self) -> CustomProcessView {
        CustomProcessView {
            name: self.name@,
            display_name: self.display_name@,
            command: self.command@,
            args: texts(self.args@),
            hotkey: self.hotkey,
            enabled: self.enabled,
            working_dir: opt_text(self.working_dir),
            env: opt_pairs(self.env),
            restart_policy: self.restart_policy,
        }
    }
}

/// Editable copy of a custom process.
#[derive(Debug, Clone)]
pub struct CustomProcessDraft {
    pub name: String,
    pub display_name: String,
    pub command: String,
    pub args: String,
    pub hotkey: String,
    pub enabled: bool,
    pub working_dir: String,
    pub env: Vec<(String, String)>,
    pub restart_policy: RestartPolicy,
}

/// A custom process draft by its plain values.
pub struct CustomProcessDraftView {
    pub name: Seq<char>,
    pub display_name: Seq<char>,
    pub command: Seq<char>,
    pub args: Seq<char>,
    pub hotkey: Seq<char>,
    pub enabled: bool,
    pub working_dir: Seq<char>,
    pub env: Seq<(Seq<char>, Seq<char>)>,
    pub restart_policy: RestartPolicy,
}

impl View for CustomProcessDraft {
    type V = CustomProcessDraftView;

    open spec fn view(&self) -> CustomProcessDraftView {
        CustomProcessDraftView {
            name: self.name@,
            display_name: self.display_name@,
            command: self.command@,
            args: self.args@,
            hotkey: self.hotkey@,
            enabled: self.enabled,
            working_dir: self.working_dir@,
            env: pair_texts(self.env@),
            restart_policy: self.restart_policy,
        }
    }
}

/// The draft of a custom process.
pub open spec fn custom_draft_of(c: CustomProcessView) -> CustomProcessDraftView {
    CustomProcessDraftView {
        name: c.name,
        display_name: c.display_name,
        command: c.command,
        args: join_words(c.args),
        hotkey: hotkey_text(c.hotkey),
        enabled: c.enabled,
        working_dir: text_or_empty(c.working_dir),
        env: pairs_or_empty(c.env),
        restart_policy: policy_or_never(c.restart_policy),
    }
}

/// The custom process a draft stands for.
pub open spec fn custom_of(d: CustomProcessDraftView) -> CustomProcessView {
    CustomProcessView {
        name: d.name,
        display_name: d.display_name,
        command: d.command,
        args: args_of(d.args),
        hotkey: hotkey_of(d.hotkey),
        enabled: d.enabled,
        working_dir: nonempty_text(d.working_dir),
        env: nonempty_pairs(d.env),
        restart_policy: stored_policy(d.restart_policy),
    }
}

impl Default for CustomProcessDraft {
    fn default() -> (d: Self)
        ensures
            d@.name.len() == 0,
            d@.display_name.len() == 0,
            d@.command.len() == 0,
            d@.args.len() == 0,
            d@.hotkey.len() == 0,
            !d.enabled,
            d@.working_dir.len() == 0,
            d@.env.len() == 0,
            d.restart_policy == RestartPolicy::Never,
    {
        CustomProcessDraft {
            name: String::new(),
            display_name: String::new(),
            command: String::new(),
            args: String::new(),
            hotkey: String::new(),
            enabled: false,
            working_dir: String::new(),
            env: Vec::new(),
            restart_policy: RestartPolicy::Never,
        }
    }
}

impl CustomProcessDraft {
    /// The draft of a stored custom process.
    pub fn from_custom(cp: &CustomProcess) -> (d: Self)
        ensures
            d@ == custom_draft_of(cp@),
    {
        let mut hotkey = String::new();
        if let Some(c) = cp.hotkey {
            push_char(&mut hotkey, c);
        }
        assert(hotkey@ =~= hotkey_text(cp.hotkey));
        let d = CustomProcessDraft {
            name: cp.name.clone(),
            display_name: cp.display_name.clone(),
            command: cp.command.clone(),
            args: join_spaced(&cp.args),
            hotkey,
            enabled: cp.enabled,
            working_dir: string_or_empty(&cp.working_dir),
            env: pairs_or_none(&cp.env),
            restart_policy: match cp.restart_policy {
                Some(p) => p,
                None => RestartPolicy::Never,
            },
        };
        assert(d@.env =~= custom_draft_of(cp@).env);
        d
    }

    /// The custom process this draft stands for.
    pub fn to_custom(&self) -> (c: CustomProcess)
        ensures
            c@ == custom_of(self@),
    {
        let keys = chars_of(self.hotkey.as_str());
        let hotkey = if keys.len() == 0 {
            None
        } else {
            Some(keys[0])
        };
        let c = CustomProcess {
            name: self.name.clone(),
            display_name: self.display_name.clone(),
            command: self.command.clone(),
            args: words_of_draft(&self.args),
            hotkey,
            enabled: self.enabled,
            working_dir: nonempty_string(&self.working_dir),
            env: optional_pairs(&self.env),
            restart_policy: stored_policy_exec(self.restart_policy),
        };
        c
    }

    /// A blank draft for a new process, enabled.
    pub fn new() -> (d: Self)
        ensures
            d@.name.len() == 0,
            d@.display_name.len() == 0,
            d@.command.len() == 0,
            d@.args.len() == 0,
            d@.hotkey.len() == 0,
            d.enabled,
            d@.working_dir.len() == 0,
            d@.env.len() == 0,
            d.restart_policy == RestartPolicy::Never,
    {
        let mut d = CustomProcessDraft::default();
        d.enabled = true;
        d
    }
}

/// A user-defined quality or testing tool.
#[derive(Debug, Clone)]
pub struct CustomTool {
    pub name: String,
    pub display_name: String,
    pub command: String,
    pub args: Vec<String>,
    pub category: String,
}

/// A custom tool by its plain values.
pub struct CustomToolView {
    pub name: Seq<char>,
    pub display_name: Seq<char>,
    pub command: Seq<char>,
    pub args: Seq<Seq<char>>,
    pub category: Seq<char>,
}

impl View for CustomTool {
    type V = CustomToolView;

    open spec fn view(&self) -> CustomToolView {
        CustomToolView {
            name: self.name@,
            display_name: self.display_name@,
            command: self.command@,
            args: texts(self.args@),
            category: self.category@,
        }
    }
}

/// Editable copy of a custom tool.
#[derive(Debug, Clone)]
pub struct CustomToolDraft {
    pub name: String,
    pub display_name: String,
    pub command: String,
    pub args: String,
    pub category: String,
}

/// A custom tool draft by its plain values.
pub struct CustomToolDraftView {
    pub name: Seq<char>,
    pub display_name: Seq<char>,
    pub command: Seq<char>,
    pub args: Seq<char>,
    pub category: Seq<char>,
}

impl View for CustomToolDraft {
    type V = CustomToolDraftView;

    open spec fn view(&self) -> CustomToolDraftView {
        CustomToolDraftView {
            name: self.name@,
            display_name: self.display_name@,
            command: self.command@,
            args: self.args@,
            category: self.category@,
        }
    }
}

/// The draft of a custom tool.
pub open spec fn tool_draft_of(t: CustomToolView) -> CustomToolDraftView {
    CustomToolDraftView {
        name: t.name,
        display_name: t.display_name,
        command: t.command,
        args: join_words(t.args),
        category: t.category,
    }
}

/// The custom tool a draft stands for.
pub open spec fn tool_of(d: CustomToolDraftView) -> CustomToolView {
    CustomToolView {
        name: d.name,
        display_name: d.display_name,
        command: d.command,
        args: args_of(d.args),
        category: d.category,
    }
}

impl Default for CustomToolDraft {
    fn default() -> (d: Self)
        ensures
            d@.name.len() == 0,
            d@.display_name.len() == 0,
            d@.command.len() == 0,
            d@.args.len() == 0,
            d@.category.len() == 0,
    {
        CustomToolDraft {
            name: String::new(),
            display_name: String::new(),
            command: String::new(),
            args: String::new(),
            category: String::new(),
        }
    }
}

impl CustomToolDraft {
    /// The draft of a stored custom tool.
    pub fn from_tool(tool: &CustomTool) -> (d: Self)
        ensures
            d@ == tool_draft_of(tool@),
    {
        CustomToolDraft {
            name: tool.name.clone(),
            display_name: tool.display_name.clone(),
            command: tool.command.clone(),
            args: join_spaced(&tool.args),
            category: tool.category.clone(),
        }
    }

    /// The custom tool this draft stands for.
    pub fn to_tool(&self) -> (t: CustomTool)
        ensures
            t@ == tool_of(self@),
    {
        CustomTool {
            name: self.name.clone(),
            display_name: self.display_name.clone(),
            command: self.command.clone(),
            args: words_of_draft(&self.args),
            category: self.category.clone(),
        }
    }

    /// A blank draft in the `quality` category.
    pub fn new_quality() -> (d: Self)
        ensures
            d@.name.len() == 0,
            d@.display_name.len() == 0,
            d@.command.len() == 0,
            d@.args.len() == 0,
            d@.category == "quality"@,
    {
        let mut d = CustomToolDraft::default();
        d.category = String::from_str("quality");
        d
    }
}


/// Which standard processes are turned off.
#[derive(Debug, Clone, Copy)]
pub struct DisabledConfig {
    pub serve: bool,
    pub vite: bool,
    pub queue: bool,
    pub horizon: bool,
    pub reverb: bool,
}

/// Quality-tab settings.
#[derive(Debug, Clone)]
pub struct QualityConfig {
    pub disabled_tools: Vec<String>,
    pub custom_tools: Vec<CustomTool>,
    pub default_args: Vec<(String, Vec<String>)>,
}

/// Log-viewer settings.
#[derive(Debug, Clone)]
pub struct LogConfig {
    pub max_lines: Option<usize>,
    pub files: Option<Vec<String>>,
    pub default_filter: Option<String>,
}

/// Artisan-tab settings.
#[derive(Debug, Clone)]
pub struct ArtisanConfig {
    pub favorites: Vec<String>,
}

/// Make-tab settings.
#[derive(Debug, Clone)]
pub struct MakeConfig {
    pub favorites: Vec<String>,
}

/// The stored configuration. Keyed collections are lists of `(key, value)`
/// pairs; `keys_distinct` says when each key occurs once, and `to_config`
/// keeps it so for a draft in which it holds.
#[derive(Debug, Clone)]
pub struct LaramuxConfig {
    pub sail: Option<bool>,
    pub disabled: DisabledConfig,
    pub overrides: Vec<(String, OverrideConfig)>,
    pub custom: Vec<CustomProcess>,
    pub quality: QualityConfig,
    pub logs: LogConfig,
    pub artisan: ArtisanConfig,
    pub make: MakeConfig,
}

/// The stored configuration by its plain values.
pub struct ConfigView {
    pub sail: Option<bool>,
    pub disabled: DisabledConfig,
    pub overrides: Seq<(Seq<char>, OverrideView)>,
    pub custom: Seq<CustomProcessView>,
    pub disabled_tools: Seq<Seq<char>>,
    pub custom_tools: Seq<CustomToolView>,
    pub default_args: Seq<(Seq<char>, Seq<Seq<char>>)>,
    pub max_lines: Option<usize>,
    pub files: Option<Seq<Seq<char>>>,
    pub default_filter: Option<Seq<char>>,
    pub artisan_favorites: Seq<Seq<char>>,
    pub make_favorites: Seq<Seq<char>>,
}

impl View for LaramuxConfig {
    type V = ConfigView;

    open spec fn view(&self) -> ConfigView {
        ConfigView {
            sail: self.sail,
            disabled: self.disabled,
            overrides: override_views(self.overrides@),
            custom: custom_views(self.custom@),
            disabled_tools: texts(self.quality.disabled_tools@),
            custom_tools: tool_views(self.quality.custom_tools@),
            default_args: arg_list_views(self.quality.default_args@),
            max_lines: self.logs.max_lines,
            files: match self.logs.files {
                Some(f) => Some(texts(f@)),
                None => None,
            },
            default_filter: opt_text(self.logs.default_filter),
            artisan_favorites: texts(self.artisan.favorites@),
            make_favorites: texts(self.make.favorites@),
        }
    }
}

/// Editable copy of the log settings.
#[derive(Debug, Clone)]
pub struct LogsDraft {
    pub max_lines: String,
    pub files: Vec<String>,
    pub default_filter: String,
}

/// Editable copy of the quality settings.
#[derive(Debug, Clone)]
pub struct QualityDraft {
    pub disabled_tools: Vec<String>,
    pub custom_tools: Vec<CustomToolDraft>,
    pub default_args: Vec<(String, String)>,
}

/// Editable copy of the whole configuration. `overrides` lists process names
/// with their drafts; `default`, `from_config` (of a configuration whose
/// overrides name each process once) and `get_or_create_override` keep each
/// name once (`keys_distinct`).
#[derive(Debug, Clone)]
pub struct ConfigDraft {
    pub sail: Option<bool>,
    pub disabled: DisabledDraft,
    pub overrides: Vec<(String, OverrideDraft)>,
    pub custom: Vec<CustomProcessDraft>,
    pub quality: QualityDraft,
    pub logs: LogsDraft,
    pub artisan_favorites: Vec<String>,
    pub make_favorites: Vec<String>,
}

/// A configuration draft by its plain values.
pub struct ConfigDraftView {
    pub sail: Option<bool>,
    pub disabled: DisabledDraft,
    pub overrides: Seq<(Seq<char>, OverrideDraftView)>,
    pub custom: Seq<CustomProcessDraftView>,
    pub disabled_tools: Seq<Seq<char>>,
    pub custom_tools: Seq<CustomToolDraftView>,
    pub default_args: Seq<(Seq<char>, Seq<char>)>,
    pub max_lines: Seq<char>,
    pub files: Seq<Seq<char>>,
    pub default_filter: Seq<char>,
    pub artisan_favorites: Seq<Seq<char>>,
    pub make_favorites: Seq<Seq<char>>,
}

impl View for ConfigDraft {
    type V = ConfigDraftView;

    open spec fn view(&self) -> ConfigDraftView {
        ConfigDraftView {
            sail: self.sail,
            disabled: self.disabled,
            overrides: override_draft_views(self.overrides@),
            custom: custom_draft_views(self.custom@),
            disabled_tools: texts(self.quality.disabled_tools@),
            custom_tools: tool_draft_views(self.quality.custom_tools@),
            default_args: pair_texts(self.quality.default_args@),
            max_lines: self.logs.max_lines@,
            files: texts(self.logs.files@),
            default_filter: self.logs.default_filter@,
            artisan_favorites: texts(self.artisan_favorites@),
            make_favorites: texts(self.make_favorites@),
        }
    }
}

/// The draft with nothing set.
pub open spec fn empty_draft() -> ConfigDraftView {
    ConfigDraftView {
        sail: None,
        disabled: DisabledDraft { serve: false, vite: false, queue: false, horizon: false, reverb: false },
        overrides: seq![],
        custom: seq![],
        disabled_tools: seq![],
        custom_tools: seq![],
        default_args: seq![],
        max_lines: seq![],
        files: seq![],
        default_filter: seq![],
        artisan_favorites: seq![],
        make_favorites: seq![],
    }
}

/// The draft of a stored configuration.
pub open spec fn draft_of(c: ConfigView) -> ConfigDraftView {
    ConfigDraftView {
        sail: c.sail,
        disabled: DisabledDraft {
            serve: c.disabled.serve,
            vite: c.disabled.vite,
            queue: c.disabled.queue,
            horizon: c.disabled.horizon,
            reverb: c.disabled.reverb,
        },
        overrides: drafts_of_overrides(c.overrides),
        custom: drafts_of_customs(c.custom),
        disabled_tools: c.disabled_tools,
        custom_tools: drafts_of_tools(c.custom_tools),
        default_args: joined_arg_lists(c.default_args),
        max_lines: match c.max_lines {
            Some(n) => decimal(n as nat),
            None => seq![],
        },
        files: match c.files {
            Some(f) => f,
            None => seq![],
        },
        default_filter: text_or_empty(c.default_filter),
        artisan_favorites: c.artisan_favorites,
        make_favorites: c.make_favorites,
    }
}

/// The overrides a draft keeps: those that set something, in order.
pub open spec fn kept_overrides(ds: Seq<(Seq<char>, OverrideDraftView)>) -> Seq<(Seq<char>, OverrideView)>
    decreases ds.len(),
{
    if ds.len() == 0 {
        seq![]
    } else {
        let rest = kept_overrides(ds.drop_last());
        match override_of(ds.last().1) {
            Some(o) => rest.push((ds.last().0, o)),
            None => rest,
        }
    }
}

/// The configuration a draft stands for.
pub open spec fn config_of(d: ConfigDraftView) -> ConfigView {
    ConfigView {
        sail: d.sail,
        disabled: DisabledConfig {
            serve: d.disabled.serve,
            vite: d.disabled.vite,
            queue: d.disabled.queue,
            horizon: d.disabled.horizon,
            reverb: d.disabled.reverb,
        },
        overrides: kept_overrides(d.overrides),
        custom: customs_of(d.custom),
        disabled_tools: d.disabled_tools,
        custom_tools: tools_of(d.custom_tools),
        default_args: split_arg_lists(d.default_args),
        max_lines: match parsed_usize(d.max_lines) {
            Some(n) => Some(n as usize),
            None => None,
        },
        files: if d.files.len() == 0 {
            None
        } else {
            Some(d.files)
        },
        default_filter: nonempty_text(d.default_filter),
        artisan_favorites: d.artisan_favorites,
        make_favorites: d.make_favorites,
    }
}


/// Overrides by their plain values.
pub open spec fn override_views(v: Seq<(String, OverrideConfig)>) -> Seq<(Seq<char>, OverrideView)> {
    v.map_values(|p: (String, OverrideConfig)| (p.0@, p.1@))
}

/// Custom processes by their plain values.
pub open spec fn custom_views(v: Seq<CustomProcess>) -> Seq<CustomProcessView> {
    v.map_values(|c: CustomProcess| c@)
}

/// Custom tools by their plain values.
pub open spec fn tool_views(v: Seq<CustomTool>) -> Seq<CustomToolView> {
    v.map_values(|t: CustomTool| t@)
}

/// Per-tool argument lists by their plain values.
pub open spec fn arg_list_views(v: Seq<(String, Vec<String>)>) -> Seq<(Seq<char>, Seq<Seq<char>>)> {
    v.map_values(|p: (String, Vec<String>)| (p.0@, texts(p.1@)))
}

/// Override drafts by their plain values.
pub open spec fn override_draft_views(v: Seq<(String, OverrideDraft)>) -> Seq<(Seq<char>, OverrideDraftView)> {
    v.map_values(|p: (String, OverrideDraft)| (p.0@, p.1@))
}

/// Custom process drafts by their plain values.
pub open spec fn custom_draft_views(v: Seq<CustomProcessDraft>) -> Seq<CustomProcessDraftView> {
    v.map_values(|c: CustomProcessDraft| c@)
}

/// Custom tool drafts by their plain values.
pub open spec fn tool_draft_views(v: Seq<CustomToolDraft>) -> Seq<CustomToolDraftView> {
    v.map_values(|t: CustomToolDraft| t@)
}

/// The drafts of stored overrides, each under its process name.
pub open spec fn drafts_of_overrides(v: Seq<(Seq<char>, OverrideView)>) -> Seq<(Seq<char>, OverrideDraftView)> {
    v.map_values(|p: (Seq<char>, OverrideView)| (p.0, override_draft_of(p.1)))
}

/// The drafts of stored custom processes.
pub open spec fn drafts_of_customs(v: Seq<CustomProcessView>) -> Seq<CustomProcessDraftView> {
    v.map_values(|p: CustomProcessView| custom_draft_of(p))
}

/// The drafts of stored custom tools.
pub open spec fn drafts_of_tools(v: Seq<CustomToolView>) -> Seq<CustomToolDraftView> {
    v.map_values(|t: CustomToolView| tool_draft_of(t))
}

/// Per-tool argument lists joined with spaces.
pub open spec fn joined_arg_lists(v: Seq<(Seq<char>, Seq<Seq<char>>)>) -> Seq<(Seq<char>, Seq<char>)> {
    v.map_values(|p: (Seq<char>, Seq<Seq<char>>)| (p.0, join_words(p.1)))
}

/// The custom processes drafts stand for.
pub open spec fn customs_of(v: Seq<CustomProcessDraftView>) -> Seq<CustomProcessView> {
    v.map_values(|p: CustomProcessDraftView| custom_of(p))
}

/// The custom tools drafts stand for.
pub open spec fn tools_of(v: Seq<CustomToolDraftView>) -> Seq<CustomToolView> {
    v.map_values(|t: CustomToolDraftView| tool_of(t))
}

/// Per-tool argument texts split at white space.
pub open spec fn split_arg_lists(v: Seq<(Seq<char>, Seq<char>)>) -> Seq<(Seq<char>, Seq<Seq<char>>)> {
    v.map_values(|p: (Seq<char>, Seq<char>)| (p.0, words(p.1)))
}

fn override_drafts(v: &Vec<(String, OverrideConfig)>) -> (r: Vec<(String, OverrideDraft)>)
    ensures
        override_draft_views(r@) == drafts_of_overrides(override_views(v@)),
        r@.len() == v@.len(),
        forall|i: int| 0 <= i < r@.len() ==> (#[trigger] r@[i]).0@ == v@[i].0@,
{
    let mut r: Vec<(String, OverrideDraft)> = Vec::new();
    let mut i: usize = 0;
    while i < v.len()
        invariant
            0 <= i <= v.len(),
            override_draft_views(r@) == drafts_of_overrides(override_views(v@)).take(i as int),
            r@.len() == i,
            forall|j: int| 0 <= j < i ==> (#[trigger] r@[j]).0@ == v@[j].0@,
        decreases v.len() - i,
    {
        let ghost before = r@;
        let d = OverrideDraft::from_override(&v[i].1);
        r.push((v[i].0.clone(), d));
        assert(override_draft_views(r@) =~= override_draft_views(before).push((v@[i as int].0@, d@)));
        assert(drafts_of_overrides(override_views(v@)).take(i + 1) =~= drafts_of_overrides(override_views(v@)).take(i as int).push((v@[i as int].0@, d@)));
        i += 1;
    }
    assert(drafts_of_overrides(override_views(v@)).take(v.len() as int) =~= drafts_of_overrides(override_views(v@)));
    r
}

fn custom_drafts(v: &Vec<CustomProcess>) -> (r: Vec<CustomProcessDraft>)
    ensures
        custom_draft_views(r@) == drafts_of_customs(custom_views(v@)),
{
    let mut r: Vec<CustomProcessDraft> = Vec::new();
    let mut i: usize = 0;
    while i < v.len()
        invariant
            0 <= i <= v.len(),
            custom_draft_views(r@) == drafts_of_customs(custom_views(v@)).take(i as int),
        decreases v.len() - i,
    {
        let ghost before = r@;
        let d = CustomProcessDraft::from_custom(&v[i]);
        r.push(d);
        assert(custom_draft_views(r@) =~= custom_draft_views(before).push(d@));
        assert(drafts_of_customs(custom_views(v@)).take(i + 1) =~= drafts_of_customs(custom_views(v@)).take(i as int).push(d@));
        i += 1;
    }
    assert(drafts_of_customs(custom_views(v@)).take(v.len() as int) =~= drafts_of_customs(custom_views(v@)));
    r
}

fn tool_drafts(v: &Vec<CustomTool>) -> (r: Vec<CustomToolDraft>)
    ensures
        tool_draft_views(r@) == drafts_of_tools(tool_views(v@)),
{
    let mut r: Vec<CustomToolDraft> = Vec::new();
    let mut i: usize = 0;
    while i < v.len()
        invariant
            0 <= i <= v.len(),
            tool_draft_views(r@) == drafts_of_tools(tool_views(v@)).take(i as int),
        decreases v.len() - i,
    {
        let ghost before = r@;
        let d = CustomToolDraft::from_tool(&v[i]);
        r.push(d);
        assert(tool_draft_views(r@) =~= tool_draft_views(before).push(d@));
        assert(drafts_of_tools(tool_views(v@)).take(i + 1) =~= drafts_of_tools(tool_views(v@)).take(i as int).push(d@));
        i += 1;
    }
    assert(drafts_of_tools(tool_views(v@)).take(v.len() as int) =~= drafts_of_tools(tool_views(v@)));
    r
}

fn join_arg_lists(v: &Vec<(String, Vec<String>)>) -> (r: Vec<(String, String)>)
    ensures
        pair_texts(r@) == joined_arg_lists(arg_list_views(v@)),
{
    let mut r: Vec<(String, String)> = Vec::new();
    let mut i: usize = 0;
    while i < v.len()
        invariant
            0 <= i <= v.len(),
            pair_texts(r@) == joined_arg_lists(arg_list_views(v@)).take(i as int),
        decreases v.len() - i,
    {
        let ghost before = r@;
        let joined = join_spaced(&v[i].1);
        r.push((v[i].0.clone(), joined));
        assert(pair_texts(r@) =~= pair_texts(before).push((v@[i as int].0@, joined@)));
        assert(joined_arg_lists(arg_list_views(v@)).take(i + 1) =~= joined_arg_lists(arg_list_views(v@)).take(i as int).push((v@[i as int].0@, joined@)));
        i += 1;
    }
    assert(joined_arg_lists(arg_list_views(v@)).take(v.len() as int) =~= joined_arg_lists(arg_list_views(v@)));
    r
}

fn stored_overrides(v: &Vec<(String, OverrideDraft)>) -> (r: Vec<(String, OverrideConfig)>)
    ensures
        override_views(r@) == kept_overrides(override_draft_views(v@)),
        keys_distinct(v@) ==> keys_distinct(r@),
{
    let mut r: Vec<(String, OverrideConfig)> = Vec::new();
    let mut i: usize = 0;
    while i < v.len()
        invariant
            0 <= i <= v.len(),
            override_views(r@) == kept_overrides(override_draft_views(v@).take(i as int)),
            forall|a: int| 0 <= a < r@.len() ==> exists|j: int| 0 <= j < i && (#[trigger] r@[a]).0@ == v@[j].0@,
            keys_distinct(v@) ==> keys_distinct(r@),
        decreases v.len() - i,
    {
        let ghost before = r@;
        let ghost ds = override_draft_views(v@);
        assert(ds.take(i + 1).drop_last() =~= ds.take(i as int));
        assert(ds.take(i + 1).last() == (v@[i as int].0@, v@[i as int].1@));
        match v[i].1.to_override() {
            Some(o) => {
                r.push((v[i].0.clone(), o));
                assert(override_views(r@) =~= override_views(before).push((v@[i as int].0@, o@)));
                assert forall|a: int| 0 <= a < r@.len() implies exists|j: int| 0 <= j < i + 1 && (#[trigger] r@[a]).0@ == v@[j].0@ by {
                    if a < before.len() {
                        assert(r@[a] == before[a]);
                        let j = choose|j: int| 0 <= j < i && (#[trigger] before[a]).0@ == v@[j].0@;
                        assert(0 <= j < i + 1 && r@[a].0@ == v@[j].0@);
                    } else {
                        assert(0 <= i < i + 1 && r@[a].0@ == v@[i as int].0@);
                    }
                }
                proof {
                    if keys_distinct(v@) {
                        assert forall|a: int, b: int| 0 <= a < b < r@.len() implies (#[trigger] r@[a]).0@ != (#[trigger] r@[b]).0@ by {
                            if b < before.len() {
                                assert(r@[a] == before[a] && r@[b] == before[b]);
                            } else {
                                assert(r@[a] == before[a]);
                                let j = choose|j: int| 0 <= j < i && (#[trigger] before[a]).0@ == v@[j].0@;
                                assert(v@[j].0@ != v@[i as int].0@);
                            }
                        }
                    }
                }
            },
            None => {},
        }
        i += 1;
    }
    assert(override_draft_views(v@).take(v.len() as int) =~= override_draft_views(v@));
    r
}

fn stored_customs(v: &Vec<CustomProcessDraft>) -> (r: Vec<CustomProcess>)
    ensures
        custom_views(r@) == customs_of(custom_draft_views(v@)),
{
    let mut r: Vec<CustomProcess> = Vec::new();
    let mut i: usize = 0;
    while i < v.len()
        invariant
            0 <= i <= v.len(),
            custom_views(r@) == customs_of(custom_draft_views(v@)).take(i as int),
        decreases v.len() - i,
    {
        let ghost before = r@;
        let c = v[i].to_custom();
        r.push(c);
        assert(custom_views(r@) =~= custom_views(before).push(c@));
        assert(customs_of(custom_draft_views(v@)).take(i + 1) =~= customs_of(custom_draft_views(v@)).take(i as int).push(c@));
        i += 1;
    }
    assert(customs_of(custom_draft_views(v@)).take(v.len() as int) =~= customs_of(custom_draft_views(v@)));
    r
}

fn stored_tools(v: &Vec<CustomToolDraft>) -> (r: Vec<CustomTool>)
    ensures
        tool_views(r@) == tools_of(tool_draft_views(v@)),
{
    let mut r: Vec<CustomTool> = Vec::new();
    let mut i: usize = 0;
    while i < v.len()
        invariant
            0 <= i <= v.len(),
            tool_views(r@) == tools_of(tool_draft_views(v@)).take(i as int),
        decreases v.len() - i,
    {
        let ghost before = r@;
        let t = v[i].to_tool();
        r.push(t);
        assert(tool_views(r@) =~= tool_views(before).push(t@));
        assert(tools_of(tool_draft_views(v@)).take(i + 1) =~= tools_of(tool_draft_views(v@)).take(i as int).push(t@));
        i += 1;
    }
    assert(tools_of(tool_draft_views(v@)).take(v.len() as int) =~= tools_of(tool_draft_views(v@)));
    r
}

fn split_arg_texts(v: &Vec<(String, String)>) -> (r: Vec<(String, Vec<String>)>)
    ensures
        arg_list_views(r@) == split_arg_lists(pair_texts(v@)),
{
    let mut r: Vec<(String, Vec<String>)> = Vec::new();
    let mut i: usize = 0;
    while i < v.len()
        invariant
            0 <= i <= v.len(),
            arg_list_views(r@) == split_arg_lists(pair_texts(v@)).take(i as int),
        decreases v.len() - i,
    {
        let ghost before = r@;
        let ws = split_whitespace(v[i].1.as_str());
        r.push((v[i].0.clone(), ws));
        assert(arg_list_views(r@) =~= arg_list_views(before).push((v@[i as int].0@, texts(ws@))));
        assert(split_arg_lists(pair_texts(v@)).take(i + 1) =~= split_arg_lists(pair_texts(v@)).take(i as int).push((v@[i as int].0@, words(v@[i as int].1@))));
        i += 1;
    }
    assert(split_arg_lists(pair_texts(v@)).take(v.len() as int) =~= split_arg_lists(pair_texts(v@)));
    r
}


/// Position of the first pair under `key`, if any.
pub open spec fn key_position<V>(pairs: Seq<(String, V)>, key: Seq<char>) -> Option<int> {
    if exists|i: int| 0 <= i < pairs.len() && (#[trigger] pairs[i]).0@ == key {
        Some(choose|i: int| 0 <= i < pairs.len() && (#[trigger] pairs[i]).0@ == key && forall|j: int| 0 <= j < i ==> (#[trigger] pairs[j]).0@ != key)
    } else {
        None
    }
}

/// Whether no key occurs twice.
pub open spec fn keys_distinct<V>(pairs: Seq<(String, V)>) -> bool {
    forall|i: int, j: int| 0 <= i < j < pairs.len() ==> (#[trigger] pairs[i]).0@ != (#[trigger] pairs[j]).0@
}


/// Finds the first pair under `key`.
fn find_key<V>(pairs: &Vec<(String, V)>, key: &str) -> (r: Option<usize>)
    ensures
        match r {
            Some(i) => key_position(pairs@, key@) == Some(i as int) && i < pairs@.len() && pairs@[i as int].0@ == key@,
            None => key_position(pairs@, key@) is None,
        },
{
    let mut i: usize = 0;
    while i < pairs.len()
        invariant
            0 <= i <= pairs.len(),
            forall|j: int| 0 <= j < i ==> (#[trigger] pairs@[j]).0@ != key@,
        decreases pairs.len() - i,
    {
        if crate::text::str_eq(pairs[i].0.as_str(), key) {
            proof {
                let c = choose|c: int| 0 <= c < pairs@.len() && (#[trigger] pairs@[c]).0@ == key@ && forall|j: int| 0 <= j < c ==> (#[trigger] pairs@[j]).0@ != key@;
                assert(0 <= i < pairs@.len() && pairs@[i as int].0@ == key@ && forall|j: int| 0 <= j < i ==> (#[trigger] pairs@[j]).0@ != key@);
                if c < i {
                    assert(pairs@[c].0@ != key@);
                } else if c > i {
                    assert(pairs@[i as int].0@ != key@);
                }
            }
            return Some(i);
        }
        i += 1;
    }
    None
}

impl Default for LogsDraft {
    fn default() -> (d: Self)
        ensures
            d.max_lines@.len() == 0,
            d.files@.len() == 0,
            d.default_filter@.len() == 0,
    {
        LogsDraft { max_lines: String::new(), files: Vec::new(), default_filter: String::new() }
    }
}

impl Default for QualityDraft {
    fn default() -> (d: Self)
        ensures
            d.disabled_tools@.len() == 0,
            d.custom_tools@.len() == 0,
            d.default_args@.len() == 0,
    {
        QualityDraft { disabled_tools: Vec::new(), custom_tools: Vec::new(), default_args: Vec::new() }
    }
}

impl Default for ConfigDraft {
    fn default() -> (d: Self)
        ensures
            d@ == empty_draft(),
            keys_distinct(d.overrides@),
    {
        let d = ConfigDraft {
            sail: None,
            disabled: DisabledDraft::default(),
            overrides: Vec::new(),
            custom: Vec::new(),
            quality: QualityDraft::default(),
            logs: LogsDraft::default(),
            artisan_favorites: Vec::new(),
            make_favorites: Vec::new(),
        };
        assert(d@.overrides =~= empty_draft().overrides);
        assert(d@.custom =~= empty_draft().custom);
        assert(d@.disabled_tools =~= empty_draft().disabled_tools);
        assert(d@.custom_tools =~= empty_draft().custom_tools);
        assert(d@.default_args =~= empty_draft().default_args);
        assert(d@.max_lines =~= empty_draft().max_lines);
        assert(d@.files =~= empty_draft().files);
        assert(d@.default_filter =~= empty_draft().default_filter);
        assert(d@.artisan_favorites =~= empty_draft().artisan_favorites);
        assert(d@.make_favorites =~= empty_draft().make_favorites);
        d
    }
}

impl ConfigDraft {
    /// The draft of the stored configuration; with none, the empty draft.
    pub fn from_config(config: Option<&LaramuxConfig>) -> (d: Self)
        ensures
            d@ == match config {
                Some(c) => draft_of(c@),
                None => empty_draft(),
            },
            match config {
                Some(c) => keys_distinct(c.overrides@) ==> keys_distinct(d.overrides@),
                None => keys_distinct(d.overrides@),
            },
    {
        match config {
            Some(cfg) => {
                let max_lines = match cfg.logs.max_lines {
                    Some(n) => format_usize(n),
                    None => String::new(),
                };
                let files = match &cfg.logs.files {
                    Some(f) => clone_strings(f),
                    None => Vec::new(),
                };
                let d = ConfigDraft {
                    sail: cfg.sail,
                    disabled: DisabledDraft {
                        serve: cfg.disabled.serve,
                        vite: cfg.disabled.vite,
                        queue: cfg.disabled.queue,
                        horizon: cfg.disabled.horizon,
                        reverb: cfg.disabled.reverb,
                    },
                    overrides: override_drafts(&cfg.overrides),
                    custom: custom_drafts(&cfg.custom),
                    quality: QualityDraft {
                        disabled_tools: clone_strings(&cfg.quality.disabled_tools),
                        custom_tools: tool_drafts(&cfg.quality.custom_tools),
                        default_args: join_arg_lists(&cfg.quality.default_args),
                    },
                    logs: LogsDraft {
                        max_lines,
                        files,
                        default_filter: string_or_empty(&cfg.logs.default_filter),
                    },
                    artisan_favorites: clone_strings(&cfg.artisan.favorites),
                    make_favorites: clone_strings(&cfg.make.favorites),
                };
                assert(d@.files =~= draft_of(cfg@).files);
                assert(d@.max_lines =~= draft_of(cfg@).max_lines);
                d
            },
            None => ConfigDraft::default(),
        }
    }

    /// The configuration this draft stands for: overrides that set nothing
    /// are left out, argument texts are split at white space, and the line
    /// limit is kept only where it reads as a number.
    pub fn to_config(&self) -> (c: LaramuxConfig)
        ensures
            c@ == config_of(self@),
            keys_distinct(self.overrides@) ==> keys_distinct(c.overrides@),
    {
        let files = if self.logs.files.len() == 0 {
            None
        } else {
            Some(clone_strings(&self.logs.files))
        };
        let c = LaramuxConfig {
            sail: self.sail,
            disabled: DisabledConfig {
                serve: self.disabled.serve,
                vite: self.disabled.vite,
                queue: self.disabled.queue,
                horizon: self.disabled.horizon,
                reverb: self.disabled.reverb,
            },
            overrides: stored_overrides(&self.overrides),
            custom: stored_customs(&self.custom),
            quality: QualityConfig {
                disabled_tools: clone_strings(&self.quality.disabled_tools),
                custom_tools: stored_tools(&self.quality.custom_tools),
                default_args: split_arg_texts(&self.quality.default_args),
            },
            logs: LogConfig {
                max_lines: parse_usize(self.logs.max_lines.as_str()),
                files,
                default_filter: nonempty_string(&self.logs.default_filter),
            },
            artisan: ArtisanConfig { favorites: clone_strings(&self.artisan_favorites) },
            make: MakeConfig { favorites: clone_strings(&self.make_favorites) },
        };
        assert(c@.files =~= config_of(self@).files);
        assert(c@.max_lines =~= config_of(self@).max_lines);
        c
    }

    /// Each standard process with its disabled flag.
    pub fn process_items(&self) -> (r: [(&'static str, bool); 5])
        ensures
            forall|i: int| 0 <= i < 5 ==> (#[trigger] r@[i]).0@ == process_labels()[i] && r@[i].1 == disabled_flag(self.disabled, i),
    {
        self.disabled.items()
    }

    /// Flips the disabled flag at `index`; nothing else changes.
    pub fn toggle_item(&mut self, index: usize)
        ensures
            final(self).disabled == toggled(old(self).disabled, index as int),
            forall|i: int| 0 <= i < 5 ==> #[trigger] disabled_flag(final(self).disabled, i) == (if i == index { !disabled_flag(old(self).disabled, i) } else { disabled_flag(old(self).disabled, i) }),
            index >= 5 ==> final(self).disabled == old(self).disabled,
            final(self).overrides == old(self).overrides,
            final(self).custom == old(self).custom,
            final(self).sail == old(self).sail,
    {
        self.disabled.toggle(index);
    }

    /// The override draft of a process, created empty at the end when the
    /// process has none.
    pub fn get_or_create_override(&mut self, name: &str) -> (r: &mut OverrideDraft)
        ensures
            match key_position(old(self).overrides@, name@) {
                Some(i) => {
                    &&& old(self).overrides@[i].0@ == name@
                    &&& *r == old(self).overrides@[i].1
                    &&& final(self).overrides@ == old(self).overrides@.update(i, (old(self).overrides@[i].0, *final(r)))
                },
                None => {
                    &&& r@ == empty_override_draft()
                    &&& final(self).overrides@.len() == old(self).overrides@.len() + 1
                    &&& final(self).overrides@.drop_last() == old(self).overrides@
                    &&& final(self).overrides@.last().0@ == name@
                    &&& final(self).overrides@.last().1 == *final(r)
                },
            },
            final(self).custom == old(self).custom,
            final(self).sail == old(self).sail,
            final(self).disabled == old(self).disabled,
            final(self).quality == old(self).quality,
            final(self).logs == old(self).logs,
            final(self).artisan_favorites == old(self).artisan_favorites,
            final(self).make_favorites == old(self).make_favorites,
            keys_distinct(old(self).overrides@) ==> keys_distinct(final(self).overrides@),
    {
        let i = match find_key(&self.overrides, name) {
            Some(i) => i,
            None => {
                self.overrides.push((String::from_str(name), OverrideDraft::default()));
                self.overrides.len() - 1
            },
        };
        &mut self.overrides[i].1
    }

    /// How many custom processes the draft holds.
    pub fn custom_count(&self) -> (n: usize)
        ensures
            n == self.custom@.len(),
    {
        self.custom.len()
    }
}

/// State of the configuration tab.
#[derive(Debug)]
pub struct ConfigTabState {
    pub config_draft: Option<ConfigDraft>,
    pub section: ConfigSection,
    pub focus: ConfigFocus,
    pub selected_item: usize,
    pub scroll_offset: usize,
    pub edit_mode: ConfigEditMode,
    pub edit_buffer: String,
    pub edit_field: usize,
    pub has_changes: bool,
    pub error: Option<String>,
    pub confirm_delete: Option<usize>,
    pub detail_view: ConfigDetailView,
    pub enum_selection: usize,
}

impl Default for ConfigTabState {
    fn default() -> (s: Self)
        ensures
            s.config_draft is None,
            s.section == ConfigSection::Disabled,
            s.focus == ConfigFocus::Sections,
            s.selected_item == 0,
            s.scroll_offset == 0,
            s.edit_mode == ConfigEditMode::Browse,
            s.edit_buffer@.len() == 0,
            s.edit_field == 0,
            !s.has_changes,
            s.error is None,
            s.confirm_delete is None,
            s.detail_view == ConfigDetailView::ItemList,
            s.enum_selection == 0,
    {
        ConfigTabState {
            config_draft: None,
            section: ConfigSection::Disabled,
            focus: ConfigFocus::Sections,
            selected_item: 0,
            scroll_offset: 0,
            edit_mode: ConfigEditMode::Browse,
            edit_buffer: String::new(),
            edit_field: 0,
            has_changes: false,
            error: None,
            confirm_delete: None,
            detail_view: ConfigDetailView::ItemList,
            enum_selection: 0,
        }
    }
}

impl ConfigTabState {
    /// Whether a text field is being edited.
    pub fn is_editing(&self) -> (b: bool)
        ensures
            b == (self.edit_mode == ConfigEditMode::EditText),
    {
        matches!(self.edit_mode, ConfigEditMode::EditText)
    }

    /// Whether an option is being chosen.
    pub fn is_selecting(&self) -> (b: bool)
        ensures
            b == (self.edit_mode == ConfigEditMode::SelectOption),
    {
        matches!(self.edit_mode, ConfigEditMode::SelectOption)
    }

    /// Whether the details panel shows the fields of one item.
    pub fn is_field_view(&self) -> (b: bool)
        ensures
            b == (self.detail_view == ConfigDetailView::ItemFields),
    {
        self.detail_view == ConfigDetailView::ItemFields
    }
}


/// Whether every item is a word.
pub open spec fn all_words(ws: Seq<Seq<char>>) -> bool {
    forall|i: int| 0 <= i < ws.len() ==> is_word(#[trigger] ws[i])
}

/// Words joined with spaces split back into the same words.
pub proof fn lemma_words_of_joined(ws: Seq<Seq<char>>)
    requires
        all_words(ws),
    ensures
        words(join_words(ws)) == ws,
        ws.len() > 0 ==> join_words(ws).len() > 0,
    decreases ws.len(),
{
    if ws.len() == 0 {
        assert(words(join_words(ws)) =~= ws);
    } else if ws.len() == 1 {
        assert(is_word(ws[0]));
        lemma_words_of_word(ws[0]);
        assert(words(join_words(ws)) =~= ws);
    } else {
        let front = ws.drop_last();
        assert(all_words(front)) by {
            assert forall|i: int| 0 <= i < front.len() implies is_word(#[trigger] front[i]) by {
                assert(front[i] == ws[i]);
            }
        }
        lemma_words_of_joined(front);
        assert(is_word(ws[ws.len() - 1]));
        lemma_words_of_word(ws.last());
        lemma_words_of_spaced(join_words(front), ws.last());
        assert(words(join_words(ws)) =~= ws);
    }
}

/// An override as the editor writes it back: no field present but empty, a
/// non-empty argument list of words, no policy stored as `Never`, and at
/// least one field present.
pub open spec fn normal_override(c: OverrideView) -> bool {
    &&& (c.command matches Some(t) ==> t.len() > 0)
    &&& (c.args matches Some(a) ==> a.len() > 0 && all_words(a))
    &&& (c.working_dir matches Some(t) ==> t.len() > 0)
    &&& (c.env matches Some(e) ==> e.len() > 0)
    &&& c.restart_policy != Some(RestartPolicy::Never)
    &&& (c.command is Some || c.args is Some || c.working_dir is Some || c.env is Some || c.restart_policy is Some)
}

/// Opening a stored override in the editor and saving it unchanged gives it
/// back, for every override in the form the editor writes.
pub proof fn law_override_round_trip(c: OverrideView)
    requires
        normal_override(c),
    ensures
        override_of(override_draft_of(c)) == Some(c),
{
    let d = override_draft_of(c);
    if let Some(a) = c.args {
        lemma_words_of_joined(a);
    }
    assert(!override_draft_empty(d));
    let o = override_of(d).unwrap();
    assert(o.command == c.command);
    assert(o.args == c.args);
    assert(o.working_dir == c.working_dir);
    assert(o.env == c.env);
}

/// A custom process as the editor writes it back.
pub open spec fn normal_custom(c: CustomProcessView) -> bool {
    &&& all_words(c.args)
    &&& (c.working_dir matches Some(t) ==> t.len() > 0)
    &&& (c.env matches Some(e) ==> e.len() > 0)
    &&& c.restart_policy != Some(RestartPolicy::Never)
}

/// Opening a stored custom process in the editor and saving it unchanged
/// gives it back.
pub proof fn law_custom_round_trip(c: CustomProcessView)
    requires
        normal_custom(c),
    ensures
        custom_of(custom_draft_of(c)) == c,
{
    lemma_words_of_joined(c.args);
    let d = custom_draft_of(c);
    if c.args.len() == 0 {
        assert(join_words(c.args).len() == 0);
        assert(args_of(d.args) =~= c.args);
    }
    assert(custom_of(d).args == c.args);
    assert(custom_of(d).hotkey == c.hotkey);
}

/// Opening a stored custom tool in the editor and saving it unchanged gives
/// it back, when its arguments are words.
pub proof fn law_tool_round_trip(t: CustomToolView)
    requires
        all_words(t.args),
    ensures
        tool_of(tool_draft_of(t)) == t,
{
    lemma_words_of_joined(t.args);
    if t.args.len() == 0 {
        assert(args_of(join_words(t.args)) =~= t.args);
    }
}

/// A stored configuration in the form the editor writes it back.
pub open spec fn normal_config(c: ConfigView) -> bool {
    &&& forall|i: int| 0 <= i < c.overrides.len() ==> normal_override(#[trigger] c.overrides[i].1)
    &&& forall|i: int| 0 <= i < c.custom.len() ==> normal_custom(#[trigger] c.custom[i])
    &&& forall|i: int| 0 <= i < c.custom_tools.len() ==> all_words(#[trigger] c.custom_tools[i].args)
    &&& forall|i: int| 0 <= i < c.default_args.len() ==> all_words(#[trigger] c.default_args[i].1)
    &&& (c.files matches Some(f) ==> f.len() > 0)
    &&& (c.default_filter matches Some(t) ==> t.len() > 0)
}

proof fn lemma_kept_overrides_of_drafts(ovs: Seq<(Seq<char>, OverrideView)>)
    requires
        forall|i: int| 0 <= i < ovs.len() ==> normal_override(#[trigger] ovs[i].1),
    ensures
        kept_overrides(drafts_of_overrides(ovs)) == ovs,
    decreases ovs.len(),
{
    if ovs.len() > 0 {
        let front = ovs.drop_last();
        assert forall|i: int| 0 <= i < front.len() implies normal_override(#[trigger] front[i].1) by {
            assert(front[i] == ovs[i]);
        }
        lemma_kept_overrides_of_drafts(front);
        let ds = drafts_of_overrides(ovs);
        assert(ds.drop_last() =~= drafts_of_overrides(front));
        assert(normal_override(ovs[ovs.len() - 1].1));
        law_override_round_trip(ovs.last().1);
        assert(kept_overrides(ds) =~= ovs);
    } else {
        assert(kept_overrides(drafts_of_overrides(ovs)) =~= ovs);
    }
}

/// Opening a stored configuration in the editor and saving it unchanged
/// gives it back, for every configuration in the form the editor writes.
pub proof fn law_config_round_trip(c: ConfigView)
    requires
        normal_config(c),
    ensures
        config_of(draft_of(c)) == c,
{
    let d = draft_of(c);
    let r = config_of(d);
    lemma_kept_overrides_of_drafts(c.overrides);
    assert(r.custom =~= c.custom) by {
        assert forall|i: int| 0 <= i < c.custom.len() implies r.custom[i] == c.custom[i] by {
            law_custom_round_trip(c.custom[i]);
        }
    }
    assert(r.custom_tools =~= c.custom_tools) by {
        assert forall|i: int| 0 <= i < c.custom_tools.len() implies r.custom_tools[i] == c.custom_tools[i] by {
            law_tool_round_trip(c.custom_tools[i]);
        }
    }
    assert(r.default_args =~= c.default_args) by {
        assert forall|i: int| 0 <= i < c.default_args.len() implies r.default_args[i] == c.default_args[i] by {
            lemma_words_of_joined(c.default_args[i].1);
        }
    }
    if let Some(n) = c.max_lines {
        law_parse_decimal(n);
    } else {
        assert(parsed_usize(Seq::<char>::empty()) is None);
    }
    assert(r.files == c.files);
    assert(r.disabled == c.disabled);
}


/// Entries the log viewer keeps when the configuration sets no limit.
pub const DEFAULT_LOG_MAX_LINES: usize = 1000;

impl LaramuxConfig {
    /// How many log entries to keep: the configured limit, else 1000.
    pub fn log_max_lines(&self) -> (n: usize)
        ensures
            n == match self.logs.max_lines {
                Some(m) => m,
                None => DEFAULT_LOG_MAX_LINES,
            },
    {
        match self.logs.max_lines {
            Some(m) => m,
            None => DEFAULT_LOG_MAX_LINES,
        }
    }

    /// The level filter the log viewer starts with, if one is configured.
    pub fn default_log_filter(&self) -> (r: Option<&str>)
        ensures
            match r {
                Some(t) => self.logs.default_filter matches Some(f) && t@ == f@,
                None => self.logs.default_filter is None,
            },
    {
        match &self.logs.default_filter {
            Some(f) => Some(f.as_str()),
            None => None,
        }
    }
}


/// Where each name occurs once, the lookup of `get_or_create_override` finds
/// a present name at its own position: a second call with a name that the
/// first call found or added returns that same draft and adds nothing.
pub proof fn law_override_found_again<V>(pairs: Seq<(String, V)>, name: Seq<char>, i: int)
    requires
        keys_distinct(pairs),
        0 <= i < pairs.len(),
        pairs[i].0@ == name,
    ensures
        key_position(pairs, name) == Some(i),
{
    assert(forall|j: int| 0 <= j < i ==> (#[trigger] pairs[j]).0@ != name);
    assert(0 <= i < pairs.len() && pairs[i].0@ == name && forall|j: int| 0 <= j < i ==> (#[trigger] pairs[j]).0@ != name);
    let c = choose|c: int| 0 <= c < pairs.len() && (#[trigger] pairs[c]).0@ == name && forall|j: int| 0 <= j < c ==> (#[trigger] pairs[j]).0@ != name;
    if c < i {
        assert(pairs[c].0@ != name);
    } else if c > i {
        assert(pairs[i].0@ != name);
    }
}

} // verus!
