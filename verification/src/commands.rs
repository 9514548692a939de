//! The artisan, make and quality tabs: listing commands and resolving the selected one.
use vstd::prelude::*;
use vstd::relations::{sorted_by, total_ordering};
use std::collections::VecDeque;
use crate::entry::texts;
use crate::logs_tab::contains_text;
use crate::text::{chars_of, contains_str, lex_less, lemma_lex_asymmetric, lemma_lex_irreflexive, lemma_lex_total, lemma_lex_transitive, lowercase_of, split_whitespace, str_less, to_lowercase, words};

verus! {

broadcast use vstd::seq_lib::group_to_multiset_ensures;

/// One line of command output.
#[derive(Debug, Clone)]
pub struct OutputLine {
    pub content: String,
    pub is_stderr: bool,
}

impl OutputLine {
    /// A line read from standard output.
    pub fn stdout(content: String) -> (l: OutputLine)
        ensures
            l.content == content,
            !l.is_stderr,
    {
        OutputLine { content, is_stderr: false }
    }

    /// A line read from standard error.
    pub fn stderr(content: String) -> (l: OutputLine)
        ensures
            l.content == content,
            l.is_stderr,
    {
        OutputLine { content, is_stderr: true }
    }
}

/// An artisan command as `php artisan list` describes it.
#[derive(Debug, Clone)]
pub struct FullArtisanCommand {
    pub name: String,
    pub description: String,
}

/// A quality or testing tool and how it is run.
#[derive(Debug, Clone)]
pub struct QualityTool {
    pub name: String,
    pub display_name: String,
    pub command: String,
    pub args: Vec<String>,
}

/// A resolved command ready to execute.
#[derive(Debug, Clone)]
pub struct ResolvedCommand {
    pub display_name: String,
    pub command: String,
    pub args: Vec<String>,
}

/// Most lines an output pane keeps.
pub const OUTPUT_LIMIT: usize = 1000;

/// Whether `name` is among the favorites.
pub open spec fn is_favorite(name: Seq<char>, favorites: Seq<String>) -> bool {
    exists|i: int| 0 <= i < favorites.len() && #[trigger] favorites[i]@ == name
}

/// Whether a command passes the search: an empty query passes everything,
/// otherwise the lowercased query must occur in the lowercased name or description.
pub open spec fn command_matches(c: FullArtisanCommand, query: Seq<char>) -> bool {
    ||| query.len() == 0
    ||| contains_text(lowercase_of(c.name@), lowercase_of(query))
    ||| contains_text(lowercase_of(c.description@), lowercase_of(query))
}

/// Indices of the first `k` commands that pass the search, in order.
pub open spec fn matching_upto(cmds: Seq<FullArtisanCommand>, query: Seq<char>, k: int) -> Seq<usize>
    decreases k,
{
    if k <= 0 {
        seq![]
    } else if command_matches(cmds[k - 1], query) {
        matching_upto(cmds, query, k - 1).push((k - 1) as usize)
    } else {
        matching_upto(cmds, query, k - 1)
    }
}

/// Listing order: favorites first, then by name; equal names keep their input order.
pub open spec fn listed_before(cmds: Seq<FullArtisanCommand>, favorites: Seq<String>, i: usize, j: usize) -> bool {
    let fi = is_favorite(cmds[i as int].name@, favorites);
    let fj = is_favorite(cmds[j as int].name@, favorites);
    ||| fi && !fj
    ||| fi == fj && lex_less(cmds[i as int].name@, cmds[j as int].name@)
    ||| fi == fj && cmds[i as int].name@ == cmds[j as int].name@ && i < j
}

/// The listing order as a total order on command indices.
pub open spec fn command_order(cmds: Seq<FullArtisanCommand>, favorites: Seq<String>) -> spec_fn(usize, usize) -> bool {
    |i: usize, j: usize| i == j || listed_before(cmds, favorites, i, j)
}

/// The commands a tab lists, as indices: those passing the search, in listing order.
pub open spec fn command_listing(cmds: Seq<FullArtisanCommand>, favorites: Seq<String>, query: Seq<char>) -> Seq<usize> {
    matching_upto(cmds, query, cmds.len() as int).sort_by(command_order(cmds, favorites))
}

pub proof fn lemma_listed_before_transitive(cmds: Seq<FullArtisanCommand>, favorites: Seq<String>, i: usize, j: usize, k: usize)
    requires
        listed_before(cmds, favorites, i, j),
        listed_before(cmds, favorites, j, k),
    ensures
        listed_before(cmds, favorites, i, k),
{
    let (ni, nj, nk) = (cmds[i as int].name@, cmds[j as int].name@, cmds[k as int].name@);
    if lex_less(ni, nj) && lex_less(nj, nk) {
        lemma_lex_transitive(ni, nj, nk);
    }
}

pub proof fn lemma_command_order_total(cmds: Seq<FullArtisanCommand>, favorites: Seq<String>)
    ensures
        total_ordering(command_order(cmds, favorites)),
{
    let r = command_order(cmds, favorites);
    assert forall|x: usize, y: usize| #[trigger] r(x, y) && #[trigger] r(y, x) implies x == y by {
        if x != y {
            lemma_lex_asymmetric(cmds[x as int].name@, cmds[y as int].name@);
            lemma_lex_irreflexive(cmds[x as int].name@);
        }
    }
    assert forall|x: usize, y: usize, z: usize| #[trigger] r(x, y) && #[trigger] r(y, z) implies r(x, z) by {
        if x != y && y != z {
            lemma_listed_before_transitive(cmds, favorites, x, y, z);
        }
    }
    assert forall|x: usize, y: usize| #[trigger] r(x, y) || #[trigger] r(y, x) by {
        lemma_lex_total(cmds[x as int].name@, cmds[y as int].name@);
    }
}

pub proof fn lemma_matching_upto_below(cmds: Seq<FullArtisanCommand>, query: Seq<char>, k: int)
    requires
        0 <= k <= usize::MAX,
    ensures
        forall|i: int| 0 <= i < matching_upto(cmds, query, k).len() ==> matching_upto(cmds, query, k)[i] < k,
    decreases k,
{
    if k > 0 {
        lemma_matching_upto_below(cmds, query, k - 1);
        let p = matching_upto(cmds, query, k - 1);
        if command_matches(cmds[k - 1], query) {
            let r = p.push((k - 1) as usize);
            assert forall|i: int| 0 <= i < r.len() implies #[trigger] r[i] < k by {
                if i < p.len() {
                    assert(r[i] == p[i]);
                }
            }
        }
    }
}

/// Whether `name` is among the favorites.
pub fn is_favorite_exec(name: &String, favorites: &[String]) -> (b: bool)
    ensures
        b == is_favorite(name@, favorites@),
{
    let mut i: usize = 0;
    while i < favorites.len()
        invariant
            0 <= i <= favorites.len(),
            forall|j: int| 0 <= j < i ==> favorites@[j]@ != name@,
        decreases favorites.len() - i,
    {
        if favorites[i] == *name {
            return true;
        }
        i += 1;
    }
    false
}

fn command_matches_exec(c: &FullArtisanCommand, query: &String) -> (b: bool)
    ensures
        b == command_matches(*c, query@),
{
    if query.as_str().unicode_len() == 0 {
        return true;
    }
    let q = to_lowercase(query.as_str());
    let name = to_lowercase(c.name.as_str());
    if contains_str(name.as_str(), q.as_str()) {
        return true;
    }
    let description = to_lowercase(c.description.as_str());
    contains_str(description.as_str(), q.as_str())
}

fn listed_before_exec(cmds: &Vec<FullArtisanCommand>, favs: &Vec<bool>, favorites: &[String], i: usize, j: usize) -> (b: bool)
    requires
        i < cmds.len(),
        j < cmds.len(),
        favs.len() == cmds.len(),
        forall|k: int| 0 <= k < cmds.len() ==> favs@[k] == is_favorite(#[trigger] cmds@[k].name@, favorites@),
    ensures
        b == listed_before(cmds@, favorites@, i, j),
{
    let fi = favs[i];
    let fj = favs[j];
    if fi != fj {
        return fi;
    }
    if str_less(cmds[i].name.as_str(), cmds[j].name.as_str()) {
        return true;
    }
    cmds[i].name == cmds[j].name && i < j
}

/// The indices of the commands to list, in listing order.
pub fn sorted_command_listing(cmds: &Vec<FullArtisanCommand>, query: &String, favorites: &[String]) -> (r: Vec<usize>)
    ensures
        r@ == command_listing(cmds@, favorites@, query@),
{
    let n = cmds.len();
    let mut favs: Vec<bool> = Vec::new();
    let mut i: usize = 0;
    while i < n
        invariant
            n == cmds.len(),
            0 <= i <= n,
            favs.len() == i,
            forall|k: int| 0 <= k < i ==> favs@[k] == is_favorite(#[trigger] cmds@[k].name@, favorites@),
        decreases n - i,
    {
        favs.push(is_favorite_exec(&cmds[i].name, favorites));
        i += 1;
    }
    let ghost order = command_order(cmds@, favorites@);
    proof {
        lemma_command_order_total(cmds@, favorites@);
    }
    let mut out: Vec<usize> = Vec::new();
    let mut k: usize = 0;
    while k < n
        invariant
            n == cmds.len(),
            favs.len() == n,
            forall|q: int| 0 <= q < n ==> favs@[q] == is_favorite(#[trigger] cmds@[q].name@, favorites@),
            order == command_order(cmds@, favorites@),
            total_ordering(order),
            0 <= k <= n,
            out@.to_multiset() == matching_upto(cmds@, query@, k as int).to_multiset(),
            sorted_by(out@, order),
            forall|q: int| 0 <= q < out@.len() ==> #[trigger] out@[q] < k,
        decreases n - k,
    {
        if command_matches_exec(&cmds[k], query) {
            let ghost ov = out@;
            let mut p: usize = 0;
            while p < out.len() && !listed_before_exec(cmds, &favs, favorites, k, out[p])
                invariant
                    ov == out@,
                    n == cmds.len(),
                    k < n,
                    favs.len() == n,
                    forall|q: int| 0 <= q < n ==> favs@[q] == is_favorite(#[trigger] cmds@[q].name@, favorites@),
                    forall|q: int| 0 <= q < out@.len() ==> #[trigger] out@[q] < k,
                    0 <= p <= out.len(),
                    forall|q: int| 0 <= q < p ==> !listed_before(cmds@, favorites@, k, #[trigger] ov[q]),
                decreases out.len() - p,
            {
                p += 1;
            }
            out.insert(p, k);
            proof {
                let nv = out@;
                assert(nv =~= ov.insert(p as int, k));
                assert forall|a: int, b: int| 0 <= a < b < nv.len() implies #[trigger] order(nv[a], nv[b]) by {
                    if b < p {
                        assert(nv[a] == ov[a] && nv[b] == ov[b]);
                    } else if b == p {
                        assert(nv[a] == ov[a]);
                        assert(ov[a] < k);
                        assert(order(k, ov[a]) || order(ov[a], k));
                    } else if a < p {
                        assert(nv[a] == ov[a] && nv[b] == ov[b - 1]);
                    } else if a == p {
                        assert(nv[b] == ov[b - 1]);
                        assert(listed_before(cmds@, favorites@, k, ov[p as int]));
                        assert(order(k, ov[p as int]));
                        if b - 1 > p {
                            assert(order(ov[p as int], ov[b - 1]));
                        }
                    } else {
                        assert(nv[a] == ov[a - 1] && nv[b] == ov[b - 1]);
                    }
                }
                assert(nv.remove(p as int) =~= ov);
                assert(nv.to_multiset() =~= ov.to_multiset().insert(k));
                assert forall|q: int| 0 <= q < nv.len() implies #[trigger] nv[q] < k + 1 by {
                    if q < p {
                        assert(nv[q] == ov[q]);
                    } else if q > p {
                        assert(nv[q] == ov[q - 1]);
                    }
                }
            }
        }
        k += 1;
    }
    proof {
        let m = matching_upto(cmds@, query@, n as int);
        m.lemma_sort_by_ensures(order);
        vstd::seq_lib::lemma_sorted_unique(out@, m.sort_by(order), order);
    }
    out
}

/// `"artisan "` then the command name.
pub open spec fn artisan_display(name: Seq<char>) -> Seq<char> {
    "artisan "@ + name
}

/// The program that runs artisan.
pub open spec fn artisan_program(is_sail: bool) -> Seq<char> {
    if is_sail {
        "./vendor/bin/sail"@
    } else {
        "php"@
    }
}

/// The arguments of an artisan run: `artisan`, the command name, the user's
/// words, and `--ansi`.
pub open spec fn artisan_args(name: Seq<char>, user_args: Seq<char>) -> Seq<Seq<char>> {
    seq!["artisan"@, name] + words(user_args) + seq!["--ansi"@]
}

fn artisan_run(name: &String, user_args: &str, is_sail: bool) -> (r: (String, Vec<String>))
    ensures
        r.0@ == artisan_program(is_sail),
        texts(r.1@) == artisan_args(name@, user_args@),
{
    let command = if is_sail {
        String::from_str("./vendor/bin/sail")
    } else {
        String::from_str("php")
    };
    let mut args: Vec<String> = Vec::new();
    args.push(String::from_str("artisan"));
    args.push(name.clone());
    let extra = split_whitespace(user_args);
    let mut i: usize = 0;
    while i < extra.len()
        invariant
            0 <= i <= extra.len(),
            texts(args@) == seq!["artisan"@, name@] + texts(extra@).take(i as int),
        decreases extra.len() - i,
    {
        let ghost before = args@;
        args.push(extra[i].clone());
        assert(texts(args@) =~= texts(before).push(extra@[i as int]@));
        assert(texts(extra@).take(i + 1) =~= texts(extra@).take(i as int).push(extra@[i as int]@));
        i += 1;
    }
    let ghost before = args@;
    args.push(String::from_str("--ansi"));
    assert(texts(extra@).take(extra.len() as int) =~= texts(extra@));
    assert(texts(args@) =~= texts(before).push("--ansi"@));
    assert(texts(extra@) == words(user_args@));
    (command, args)
}

/// State for the Artisan tab.
#[derive(Debug)]
pub struct ArtisanTabState {
    pub selected_command: usize,
    pub input_buffer: String,
    pub input_mode: bool,
    pub command_output: VecDeque<OutputLine>,
    pub output_scroll_offset: usize,
    pub running_command: Option<String>,
    pub artisan_commands: Vec<FullArtisanCommand>,
    pub search_query: String,
    pub search_mode: bool,
    pub details_scroll_offset: usize,
}

impl Default for ArtisanTabState {
    /// An empty tab.
    fn default() -> (s: Self)
        ensures
            s.selected_command == 0,
            s.input_buffer@.len() == 0,
            !s.input_mode,
            s.command_output@.len() == 0,
            s.output_scroll_offset == 0,
            s.running_command is None,
            s.artisan_commands@.len() == 0,
            s.search_query@.len() == 0,
            !s.search_mode,
            s.details_scroll_offset == 0,
    {
        ArtisanTabState {
            selected_command: 0,
            input_buffer: String::new(),
            input_mode: false,
            command_output: VecDeque::new(),
            output_scroll_offset: 0,
            running_command: None,
            artisan_commands: Vec::new(),
            search_query: String::new(),
            search_mode: false,
            details_scroll_offset: 0,
        }
    }
}

impl ArtisanTabState {
    /// The listed commands, as indices into `artisan_commands`.
    pub open spec fn listing(&self, favorites: Seq<String>) -> Seq<usize> {
        command_listing(self.artisan_commands@, favorites, self.search_query@)
    }

    fn filtered_commands_with_favorites(&self, favorites: &[String]) -> (r: Vec<usize>)
        ensures
            r@ == self.listing(favorites@),
            forall|q: int| 0 <= q < r@.len() ==> #[trigger] r@[q] < self.artisan_commands@.len(),
    {
        let _n = self.artisan_commands.len();
        proof {
            lemma_listing_in_range(self.artisan_commands@, favorites@, self.search_query@);
        }
        sorted_command_listing(&self.artisan_commands, &self.search_query, favorites)
    }

    /// How many commands are listed.
    pub fn command_count(&self, favorites: &[String]) -> (n: usize)
        ensures
            n == self.listing(favorites@).len(),
    {
        self.filtered_commands_with_favorites(favorites).len()
    }

    /// The listed command under the cursor.
    pub fn selected_artisan_command(&self, favorites: &[String]) -> (r: Option<&FullArtisanCommand>)
        ensures
            match r {
                Some(c) => self.selected_command < self.listing(favorites@).len() && *c
                    == self.artisan_commands@[self.listing(favorites@)[self.selected_command as int] as int],
                None => self.selected_command >= self.listing(favorites@).len(),
            },
    {
        let filtered = self.filtered_commands_with_favorites(favorites);
        if self.selected_command < filtered.len() {
            let idx = filtered[self.selected_command];
            Some(&self.artisan_commands[idx])
        } else {
            None
        }
    }

    /// Name, description and favorite flag of each listed command.
    pub fn current_command_display(&self, favorites: &[String]) -> (r: Vec<(String, String, bool)>)
        ensures
            r@.len() == self.listing(favorites@).len(),
            forall|i: int| 0 <= i < r@.len() ==> {
                let c = self.artisan_commands@[self.listing(favorites@)[i] as int];
                &&& (#[trigger] r@[i]).0@ == c.name@
                &&& r@[i].1@ == c.description@
                &&& r@[i].2 == is_favorite(c.name@, favorites@)
            },
    {
        let filtered = self.filtered_commands_with_favorites(favorites);
        let mut out: Vec<(String, String, bool)> = Vec::new();
        let mut i: usize = 0;
        while i < filtered.len()
            invariant
                filtered@ == self.listing(favorites@),
                forall|q: int| 0 <= q < filtered@.len() ==> #[trigger] filtered@[q] < self.artisan_commands@.len(),
                0 <= i <= filtered.len(),
                out@.len() == i,
                forall|q: int| 0 <= q < i ==> {
                    let c = self.artisan_commands@[filtered@[q] as int];
                    &&& (#[trigger] out@[q]).0@ == c.name@
                    &&& out@[q].1@ == c.description@
                    &&& out@[q].2 == is_favorite(c.name@, favorites@)
                },
            decreases filtered.len() - i,
        {
            let c = &self.artisan_commands[filtered[i]];
            let fav = is_favorite_exec(&c.name, favorites);
            out.push((c.name.clone(), c.description.clone(), fav));
            i += 1;
        }
        out
    }

    /// The selected command as a run of `php artisan` (or Sail), with the user's
    /// arguments and `--ansi` appended.
    pub fn selected_command_resolved(&self, user_args: &str, favorites: &[String], is_sail: bool) -> (r: Option<ResolvedCommand>)
        ensures
            match r {
                Some(rc) => {
                    let c = self.artisan_commands@[self.listing(favorites@)[self.selected_command as int] as int];
                    &&& self.selected_command < self.listing(favorites@).len()
                    &&& rc.display_name@ == artisan_display(c.name@)
                    &&& rc.command@ == artisan_program(is_sail)
                    &&& texts(rc.args@) == artisan_args(c.name@, user_args@)
                },
                None => self.selected_command >= self.listing(favorites@).len(),
            },
    {
        let cmd = self.selected_artisan_command(favorites)?;
        let (command, args) = artisan_run(&cmd.name, user_args, is_sail);
        let display_name = String::from_str("artisan ").concat(cmd.name.as_str());
        Some(ResolvedCommand { display_name, command, args })
    }

    /// Name of the selected command.
    pub fn selected_command_name(&self, favorites: &[String]) -> (r: Option<String>)
        ensures
            match r {
                Some(n) => self.selected_command < self.listing(favorites@).len() && n@
                    == self.artisan_commands@[self.listing(favorites@)[self.selected_command as int] as int].name@,
                None => self.selected_command >= self.listing(favorites@).len(),
            },
    {
        match self.selected_artisan_command(favorites) {
            Some(c) => Some(c.name.clone()),
            None => None,
        }
    }

    /// Appends a line of output, dropping the oldest once 1000 are kept.
    pub fn add_output(&mut self, line: OutputLine)
        ensures
            final(self).command_output@ == bounded_push(old(self).command_output@, line),
            final(self).output_scroll_offset == old(self).output_scroll_offset,
            final(self).selected_command == old(self).selected_command,
            final(self).artisan_commands == old(self).artisan_commands,
            final(self).search_query == old(self).search_query,
    {
        push_output(&mut self.command_output, line);
    }

    /// Empties the output and scrolls back to the top.
    pub fn clear_output(&mut self)
        ensures
            final(self).command_output@.len() == 0,
            final(self).output_scroll_offset == 0,
            final(self).selected_command == old(self).selected_command,
            final(self).artisan_commands == old(self).artisan_commands,
            final(self).search_query == old(self).search_query,
    {
        self.command_output.clear();
        self.output_scroll_offset = 0;
    }
}

/// State for the Make tab.
#[derive(Debug)]
pub struct MakeTabState {
    pub selected_command: usize,
    pub input_buffer: String,
    pub input_mode: bool,
    pub command_output: VecDeque<OutputLine>,
    pub output_scroll_offset: usize,
    pub running_command: Option<String>,
    pub make_commands: Vec<FullArtisanCommand>,
    pub search_query: String,
    pub search_mode: bool,
    pub details_scroll_offset: usize,
}

impl Default for MakeTabState {
    /// An empty tab.
    fn default() -> (s: Self)
        ensures
            s.selected_command == 0,
            s.input_buffer@.len() == 0,
            !s.input_mode,
            s.command_output@.len() == 0,
            s.output_scroll_offset == 0,
            s.running_command is None,
            s.make_commands@.len() == 0,
            s.search_query@.len() == 0,
            !s.search_mode,
            s.details_scroll_offset == 0,
    {
        MakeTabState {
            selected_command: 0,
            input_buffer: String::new(),
            input_mode: false,
            command_output: VecDeque::new(),
            output_scroll_offset: 0,
            running_command: None,
            make_commands: Vec::new(),
            search_query: String::new(),
            search_mode: false,
            details_scroll_offset: 0,
        }
    }
}

impl MakeTabState {
    /// The listed commands, as indices into `make_commands`.
    pub open spec fn listing(&self, favorites: Seq<String>) -> Seq<usize> {
        command_listing(self.make_commands@, favorites, self.search_query@)
    }

    fn filtered_commands_with_favorites(&self, favorites: &[String]) -> (r: Vec<usize>)
        ensures
            r@ == self.listing(favorites@),
            forall|q: int| 0 <= q < r@.len() ==> #[trigger] r@[q] < self.make_commands@.len(),
    {
        let _n = self.make_commands.len();
        proof {
            lemma_listing_in_range(self.make_commands@, favorites@, self.search_query@);
        }
        sorted_command_listing(&self.make_commands, &self.search_query, favorites)
    }

    /// How many commands are listed.
    pub fn command_count(&self, favorites: &[String]) -> (n: usize)
        ensures
            n == self.listing(favorites@).len(),
    {
        self.filtered_commands_with_favorites(favorites).len()
    }

    /// The listed command under the cursor.
    pub fn selected_make_command(&self, favorites: &[String]) -> (r: Option<&FullArtisanCommand>)
        ensures
            match r {
                Some(c) => self.selected_command < self.listing(favorites@).len() && *c
                    == self.make_commands@[self.listing(favorites@)[self.selected_command as int] as int],
                None => self.selected_command >= self.listing(favorites@).len(),
            },
    {
        let filtered = self.filtered_commands_with_favorites(favorites);
        if self.selected_command < filtered.len() {
            let idx = filtered[self.selected_command];
            Some(&self.make_commands[idx])
        } else {
            None
        }
    }

    /// Display name, full command line and favorite flag of each listed command.
    pub fn current_command_display(&self, favorites: &[String], is_sail: bool) -> (r: Vec<(String, String, bool)>)
        ensures
            r@.len() == self.listing(favorites@).len(),
            forall|i: int| 0 <= i < r@.len() ==> {
                let c = self.make_commands@[self.listing(favorites@)[i] as int];
                &&& (#[trigger] r@[i]).0@ == make_display(c.name@)
                &&& r@[i].1@ == make_command_line(c.name@, is_sail)
                &&& r@[i].2 == is_favorite(c.name@, favorites@)
            },
    {
        let filtered = self.filtered_commands_with_favorites(favorites);
        let mut out: Vec<(String, String, bool)> = Vec::new();
        let mut i: usize = 0;
        while i < filtered.len()
            invariant
                filtered@ == self.listing(favorites@),
                forall|q: int| 0 <= q < filtered@.len() ==> #[trigger] filtered@[q] < self.make_commands@.len(),
                0 <= i <= filtered.len(),
                out@.len() == i,
                forall|q: int| 0 <= q < i ==> {
                    let c = self.make_commands@[filtered@[q] as int];
                    &&& (#[trigger] out@[q]).0@ == make_display(c.name@)
                    &&& out@[q].1@ == make_command_line(c.name@, is_sail)
                    &&& out@[q].2 == is_favorite(c.name@, favorites@)
                },
            decreases filtered.len() - i,
        {
            let c = &self.make_commands[filtered[i]];
            let fav = is_favorite_exec(&c.name, favorites);
            let display_name = make_display_name(&c.name);
            let full_command = if is_sail {
                String::from_str("sail artisan ").concat(c.name.as_str())
            } else {
                String::from_str("php artisan ").concat(c.name.as_str())
            };
            out.push((display_name, full_command, fav));
            i += 1;
        }
        out
    }

    /// The selected command as a run of `php artisan` (or Sail), with the user's
    /// arguments and `--ansi` appended; its display name drops `make:` and
    /// capitalizes what follows.
    pub fn selected_command_resolved(&self, user_args: &str, favorites: &[String], is_sail: bool) -> (r: Option<ResolvedCommand>)
        ensures
            match r {
                Some(rc) => {
                    let c = self.make_commands@[self.listing(favorites@)[self.selected_command as int] as int];
                    &&& self.selected_command < self.listing(favorites@).len()
                    &&& rc.display_name@ == make_display(c.name@)
                    &&& rc.command@ == artisan_program(is_sail)
                    &&& texts(rc.args@) == artisan_args(c.name@, user_args@)
                },
                None => self.selected_command >= self.listing(favorites@).len(),
            },
    {
        let cmd = self.selected_make_command(favorites)?;
        let (command, args) = artisan_run(&cmd.name, user_args, is_sail);
        let display_name = make_display_name(&cmd.name);
        Some(ResolvedCommand { display_name, command, args })
    }

    /// Name of the selected command.
    pub fn selected_command_name(&self, favorites: &[String]) -> (r: Option<String>)
        ensures
            match r {
                Some(n) => self.selected_command < self.listing(favorites@).len() && n@
                    == self.make_commands@[self.listing(favorites@)[self.selected_command as int] as int].name@,
                None => self.selected_command >= self.listing(favorites@).len(),
            },
    {
        match self.selected_make_command(favorites) {
            Some(c) => Some(c.name.clone()),
            None => None,
        }
    }

    /// Appends a line of output, dropping the oldest once 1000 are kept.
    pub fn add_output(&mut self, line: OutputLine)
        ensures
            final(self).command_output@ == bounded_push(old(self).command_output@, line),
            final(self).output_scroll_offset == old(self).output_scroll_offset,
            final(self).selected_command == old(self).selected_command,
            final(self).make_commands == old(self).make_commands,
            final(self).search_query == old(self).search_query,
    {
        push_output(&mut self.command_output, line);
    }

    /// Empties the output and scrolls back to the top.
    pub fn clear_output(&mut self)
        ensures
            final(self).command_output@.len() == 0,
            final(self).output_scroll_offset == 0,
            final(self).selected_command == old(self).selected_command,
            final(self).make_commands == old(self).make_commands,
            final(self).search_query == old(self).search_query,
    {
        self.command_output.clear();
        self.output_scroll_offset = 0;
    }
}

/// The uppercase mapping of a character, as `char::to_uppercase` yields it.
pub uninterp spec fn uppercase_of(c: char) -> Seq<char>;

/// Calls `char::to_uppercase` and collects the characters it yields; the
/// result is named `uppercase_of` of the character (the Unicode case tables
/// are not stated).
#[verifier::external_body]
fn char_to_uppercase(c: char) -> (s: String)
    ensures
        s@ == uppercase_of(c),
{
    c.to_uppercase().collect()
}

/// How the make tab names a command: `make:model` is shown as `Model`; a name
/// without the `make:` prefix is shown as it is.
pub open spec fn make_display(name: Seq<char>) -> Seq<char> {
    if name.len() >= 5 && name.take(5) == "make:"@ {
        let rest = name.skip(5);
        if rest.len() == 0 {
            seq![]
        } else {
            uppercase_of(rest[0]) + rest.skip(1)
        }
    } else {
        name
    }
}

/// The command line the make tab shows for a command.
pub open spec fn make_command_line(name: Seq<char>, is_sail: bool) -> Seq<char> {
    if is_sail {
        "sail artisan "@ + name
    } else {
        "php artisan "@ + name
    }
}

/// The uppercased first character followed by the rest of a word.
pub fn capitalized(first_upper: String, rest: &[char]) -> (s: String)
    ensures
        s@ == first_upper@ + rest@,
{
    let mut s = first_upper;
    let mut i: usize = 0;
    let ghost start = s@;
    while i < rest.len()
        invariant
            0 <= i <= rest.len(),
            s@ == start + rest@.take(i as int),
        decreases rest.len() - i,
    {
        crate::text::push_char(&mut s, rest[i]);
        i += 1;
        assert(s@ =~= start + rest@.take(i as int));
    }
    assert(rest@.take(rest.len() as int) =~= rest@);
    s
}

/// Display name of a make command.
pub fn make_display_name(name: &String) -> (s: String)
    ensures
        s@ == make_display(name@),
{
    let cs = chars_of(name.as_str());
    let prefix = chars_of("make:");
    proof {
        reveal_strlit("make:");
    }
    if cs.len() >= 5 && crate::text::occurs_at_exec(&cs, &prefix, 0) {
        assert(cs@.subrange(0, 5) =~= cs@.take(5));
        if cs.len() == 5 {
            return String::new();
        }
        let upper = char_to_uppercase(cs[5]);
        let rest = crate::entry::chars_range(&cs, 6, cs.len());
        let s = capitalized(upper, rest.as_slice());
        assert(rest@ =~= name@.skip(5).skip(1));
        s
    } else {
        name.clone()
    }
}

/// Output lines after appending one to a pane that keeps at most 1000.
pub open spec fn bounded_push(lines: Seq<OutputLine>, line: OutputLine) -> Seq<OutputLine> {
    if lines.len() >= OUTPUT_LIMIT {
        lines.drop_first().push(line)
    } else {
        lines.push(line)
    }
}

/// Appends a line, dropping the oldest once the limit is reached.
pub fn push_output(out: &mut VecDeque<OutputLine>, line: OutputLine)
    ensures
        final(out)@ == bounded_push(old(out)@, line),
        old(out)@.len() <= OUTPUT_LIMIT ==> final(out)@.len() <= OUTPUT_LIMIT,
        final(out)@.last() == line,
{
    if out.len() >= OUTPUT_LIMIT {
        let ghost before = out@;
        let _ = out.pop_front();
        assert(out@ =~= before.drop_first());
    }
    out.push_back(line);
}

/// Every listed index names a command.
pub proof fn lemma_listing_in_range(cmds: Seq<FullArtisanCommand>, favorites: Seq<String>, query: Seq<char>)
    requires
        cmds.len() <= usize::MAX,
    ensures
        forall|q: int| 0 <= q < command_listing(cmds, favorites, query).len() ==> #[trigger] command_listing(cmds, favorites, query)[q] < cmds.len(),
{
    let m = matching_upto(cmds, query, cmds.len() as int);
    let order = command_order(cmds, favorites);
    lemma_command_order_total(cmds, favorites);
    m.lemma_sort_by_ensures(order);
    lemma_matching_upto_below(cmds, query, cmds.len() as int);
    let l = m.sort_by(order);
    assert forall|q: int| 0 <= q < l.len() implies #[trigger] l[q] < cmds.len() by {
        assert(l.to_multiset().count(l[q]) > 0);
        assert(m.to_multiset().count(l[q]) > 0);
        assert(m.contains(l[q]));
    }
}

/// An index is among the first `k` matching indices exactly when it is below
/// `k` and its command passes the search.
pub proof fn lemma_matching_upto_members(cmds: Seq<FullArtisanCommand>, query: Seq<char>, k: int, i: int)
    requires
        0 <= k <= cmds.len(),
        cmds.len() <= usize::MAX,
        0 <= i < cmds.len(),
    ensures
        matching_upto(cmds, query, k).contains(i as usize) <==> (i < k && command_matches(cmds[i], query)),
    decreases k,
{
    if k > 0 {
        lemma_matching_upto_members(cmds, query, k - 1, i);
        lemma_matching_upto_below(cmds, query, k - 1);
        let p = matching_upto(cmds, query, k - 1);
        if command_matches(cmds[k - 1], query) {
            let r = p.push((k - 1) as usize);
            assert(matching_upto(cmds, query, k) == r);
            if r.contains(i as usize) {
                let t = choose|t: int| 0 <= t < r.len() && r[t] == i as usize;
                if t < p.len() {
                    assert(p[t] == r[t]);
                }
            }
            if i == k - 1 {
                assert(r[p.len() as int] == i as usize);
            } else if p.contains(i as usize) {
                let t = choose|t: int| 0 <= t < p.len() && p[t] == i as usize;
                assert(r[t] == p[t]);
            }
        } else {
            if p.contains(i as usize) {
                let t = choose|t: int| 0 <= t < p.len() && p[t] == i as usize;
                assert(p[t] < k - 1);
            }
        }
    }
}

/// The search looks at names as well as descriptions: a command is listed
/// exactly when the query is empty, or its lowercased form occurs in the
/// command's lowercased name or in its lowercased description.
pub proof fn law_search_covers_name_and_description(
    cmds: Seq<FullArtisanCommand>,
    favorites: Seq<String>,
    query: Seq<char>,
    i: int,
)
    requires
        0 <= i < cmds.len(),
        cmds.len() <= usize::MAX,
    ensures
        command_listing(cmds, favorites, query).contains(i as usize) <==> (query.len() == 0
            || contains_text(lowercase_of(cmds[i].name@), lowercase_of(query))
            || contains_text(lowercase_of(cmds[i].description@), lowercase_of(query))),
{
    let m = matching_upto(cmds, query, cmds.len() as int);
    let order = command_order(cmds, favorites);
    lemma_command_order_total(cmds, favorites);
    m.lemma_sort_by_ensures(order);
    lemma_matching_upto_members(cmds, query, cmds.len() as int, i);
    let l = m.sort_by(order);
    if l.contains(i as usize) {
        let t = choose|t: int| 0 <= t < l.len() && l[t] == i as usize;
        assert(l.to_multiset().count(l[t]) > 0);
        assert(m.to_multiset().count(i as usize) > 0);
        assert(m.contains(i as usize));
    }
    if m.contains(i as usize) {
        let t = choose|t: int| 0 <= t < m.len() && m[t] == i as usize;
        assert(m.to_multiset().count(m[t]) > 0);
        assert(l.to_multiset().count(i as usize) > 0);
        assert(l.contains(i as usize));
    }
}

/// The listing shows favorites first and then the other commands, and within
/// each of the two groups the names come in alphabetical order.
pub proof fn law_listing_favorites_first_then_by_name(
    cmds: Seq<FullArtisanCommand>,
    favorites: Seq<String>,
    query: Seq<char>,
    p: int,
    q: int,
)
    requires
        cmds.len() <= usize::MAX,
        0 <= p < q < command_listing(cmds, favorites, query).len(),
    ensures
        ({
            let l = command_listing(cmds, favorites, query);
            let a = cmds[l[p] as int];
            let b = cmds[l[q] as int];
            &&& is_favorite(b.name@, favorites) ==> is_favorite(a.name@, favorites)
            &&& is_favorite(a.name@, favorites) == is_favorite(b.name@, favorites) ==> (lex_less(a.name@, b.name@)
                || a.name@ == b.name@)
        }),
{
    let m = matching_upto(cmds, query, cmds.len() as int);
    let order = command_order(cmds, favorites);
    lemma_command_order_total(cmds, favorites);
    m.lemma_sort_by_ensures(order);
    let l = m.sort_by(order);
    assert(order(l[p], l[q]));
}

/// Category within the Quality tab.
#[derive(Debug, Clone, Copy, PartialEq, Eq, Structural)]
pub enum QualityCategory {
    QualityTools,
    Testing,
}

/// Display name of a quality category.
pub open spec fn category_name(c: QualityCategory) -> Seq<char> {
    match c {
        QualityCategory::QualityTools => "Quality Tools"@,
        QualityCategory::Testing => "Testing"@,
    }
}

/// The other category (there are two).
pub open spec fn other_category(c: QualityCategory) -> QualityCategory {
    match c {
        QualityCategory::QualityTools => QualityCategory::Testing,
        QualityCategory::Testing => QualityCategory::QualityTools,
    }
}

impl Default for QualityCategory {
    /// The category a new tab starts on.
    fn default() -> (c: QualityCategory)
        ensures
            c == QualityCategory::QualityTools,
    {
        QualityCategory::QualityTools
    }
}

impl QualityCategory {
    /// Both categories, in tab order.
    pub fn all() -> (v: &'static [QualityCategory])
        ensures
            v@ == seq![QualityCategory::QualityTools, QualityCategory::Testing],
    {
        let v: &'static [QualityCategory] = &[QualityCategory::QualityTools, QualityCategory::Testing];
        assert(v@ =~= seq![QualityCategory::QualityTools, QualityCategory::Testing]);
        v
    }

    /// Display name.
    pub fn name(&self) -> (s: &'static str)
        ensures
            s@ == category_name(*self),
    {
        match self {
            QualityCategory::QualityTools => "Quality Tools",
            QualityCategory::Testing => "Testing",
        }
    }

    /// The next category, wrapping around.
    pub fn next(&self) -> (c: QualityCategory)
        ensures
            c == other_category(*self),
    {
        match self {
            QualityCategory::QualityTools => QualityCategory::Testing,
            QualityCategory::Testing => QualityCategory::QualityTools,
        }
    }

    /// The previous category, wrapping around.
    pub fn previous(&self) -> (c: QualityCategory)
        ensures
            c == other_category(*self),
    {
        self.next()
    }
}


/// Whether a tool argument is a flag: it starts with `-`.
pub open spec fn is_flag(a: Seq<char>) -> bool {
    a.len() > 0 && a[0] == '-'
}

/// The arguments that are not flags, in order.
pub open spec fn plain_args(args: Seq<Seq<char>>) -> Seq<Seq<char>> {
    args.filter(|a: Seq<char>| !is_flag(a))
}

/// The arguments that are flags, in order.
pub open spec fn flag_args(args: Seq<Seq<char>>) -> Seq<Seq<char>> {
    args.filter(|a: Seq<char>| is_flag(a))
}

/// The arguments of a quality run: the tool's own non-flag arguments in
/// order, then the user's words, then the tool's flags in order.
pub open spec fn quality_args(tool_args: Seq<Seq<char>>, user_args: Seq<char>) -> Seq<Seq<char>> {
    plain_args(tool_args) + words(user_args) + flag_args(tool_args)
}

fn is_flag_exec(a: &String) -> (b: bool)
    ensures
        b == is_flag(a@),
{
    let cs = chars_of(a.as_str());
    cs.len() > 0 && cs[0] == '-'
}

proof fn lemma_partition_step(t: Seq<Seq<char>>, i: int)
    requires
        0 <= i < t.len(),
    ensures
        plain_args(t.take(i + 1)) == if is_flag(t[i]) { plain_args(t.take(i)) } else { plain_args(t.take(i)).push(t[i]) },
        flag_args(t.take(i + 1)) == if is_flag(t[i]) { flag_args(t.take(i)).push(t[i]) } else { flag_args(t.take(i)) },
{
    reveal(Seq::filter);
    let t1 = t.take(i + 1);
    assert(t1.drop_last() =~= t.take(i));
    assert(t1.last() == t[i]);
}

/// Splits a tool's arguments into non-flags and flags, each in order.
fn partition_flags(args: &Vec<String>) -> (r: (Vec<String>, Vec<String>))
    ensures
        texts(r.0@) == plain_args(texts(args@)),
        texts(r.1@) == flag_args(texts(args@)),
{
    let mut plain: Vec<String> = Vec::new();
    let mut flags: Vec<String> = Vec::new();
    let mut i: usize = 0;
    while i < args.len()
        invariant
            0 <= i <= args.len(),
            texts(plain@) == plain_args(texts(args@).take(i as int)),
            texts(flags@) == flag_args(texts(args@).take(i as int)),
        decreases args.len() - i,
    {
        proof {
            lemma_partition_step(texts(args@), i as int);
        }
        let ghost p0 = plain@;
        let ghost f0 = flags@;
        if is_flag_exec(&args[i]) {
            flags.push(args[i].clone());
            assert(texts(flags@) =~= texts(f0).push(args@[i as int]@));
        } else {
            plain.push(args[i].clone());
            assert(texts(plain@) =~= texts(p0).push(args@[i as int]@));
        }
        i += 1;
    }
    assert(texts(args@).take(args.len() as int) =~= texts(args@));
    (plain, flags)
}

/// State for the Quality tab (quality tools and testing).
#[derive(Debug)]
pub struct QualityTabState {
    pub selected_category: QualityCategory,
    pub selected_tool: usize,
    pub input_buffer: String,
    pub input_mode: bool,
    pub command_output: VecDeque<OutputLine>,
    pub output_scroll_offset: usize,
    pub running_command: Option<String>,
    pub quality_tools: Vec<QualityTool>,
    pub testing_tools: Vec<QualityTool>,
    pub details_scroll_offset: usize,
}

impl Default for QualityTabState {
    /// An empty tab on the quality tools.
    fn default() -> (s: Self)
        ensures
            s.selected_category == QualityCategory::QualityTools,
            s.selected_tool == 0,
            s.input_buffer@.len() == 0,
            !s.input_mode,
            s.command_output@.len() == 0,
            s.output_scroll_offset == 0,
            s.running_command is None,
            s.quality_tools@.len() == 0,
            s.testing_tools@.len() == 0,
            s.details_scroll_offset == 0,
    {
        QualityTabState {
            selected_category: QualityCategory::QualityTools,
            selected_tool: 0,
            input_buffer: String::new(),
            input_mode: false,
            command_output: VecDeque::new(),
            output_scroll_offset: 0,
            running_command: None,
            quality_tools: Vec::new(),
            testing_tools: Vec::new(),
            details_scroll_offset: 0,
        }
    }
}

impl QualityTabState {
    /// The tools of the selected category.
    pub open spec fn tools(&self) -> Seq<QualityTool> {
        match self.selected_category {
            QualityCategory::QualityTools => self.quality_tools@,
            QualityCategory::Testing => self.testing_tools@,
        }
    }

    /// The tools of the selected category.
    pub fn current_tools(&self) -> (r: &[QualityTool])
        ensures
            r@ == self.tools(),
    {
        match self.selected_category {
            QualityCategory::QualityTools => self.quality_tools.as_slice(),
            QualityCategory::Testing => self.testing_tools.as_slice(),
        }
    }

    /// How many tools the selected category has.
    pub fn tool_count(&self) -> (n: usize)
        ensures
            n == self.tools().len(),
    {
        self.current_tools().len()
    }

    /// The tool under the cursor.
    pub fn selected_tool_item(&self) -> (r: Option<&QualityTool>)
        ensures
            match r {
                Some(t) => self.selected_tool < self.tools().len() && *t == self.tools()[self.selected_tool as int],
                None => self.selected_tool >= self.tools().len(),
            },
    {
        let tools = self.current_tools();
        if self.selected_tool < tools.len() {
            Some(&tools[self.selected_tool])
        } else {
            None
        }
    }

    /// The selected tool as a command line: its non-flag arguments, then the
    /// user's words, then its flags.
    pub fn selected_command_resolved(&self, user_args: &str) -> (r: Option<ResolvedCommand>)
        ensures
            match r {
                Some(rc) => {
                    let t = self.tools()[self.selected_tool as int];
                    &&& self.selected_tool < self.tools().len()
                    &&& rc.display_name@ == t.display_name@
                    &&& rc.command@ == t.command@
                    &&& texts(rc.args@) == quality_args(texts(t.args@), user_args@)
                },
                None => self.selected_tool >= self.tools().len(),
            },
    {
        let tool = self.selected_tool_item()?;
        let (plain, flags) = partition_flags(&tool.args);
        let mut args = plain;
        let extra = split_whitespace(user_args);
        let mut i: usize = 0;
        while i < extra.len()
            invariant
                0 <= i <= extra.len(),
                texts(args@) == texts(plain@) + texts(extra@).take(i as int),
            decreases extra.len() - i,
        {
            let ghost before = args@;
            args.push(extra[i].clone());
            assert(texts(args@) =~= texts(before).push(extra@[i as int]@));
            assert(texts(extra@).take(i + 1) =~= texts(extra@).take(i as int).push(extra@[i as int]@));
            i += 1;
        }
        assert(texts(extra@).take(extra.len() as int) =~= texts(extra@));
        let ghost mid = args@;
        let mut j: usize = 0;
        while j < flags.len()
            invariant
                0 <= j <= flags.len(),
                texts(args@) == texts(mid) + texts(flags@).take(j as int),
            decreases flags.len() - j,
        {
            let ghost before = args@;
            args.push(flags[j].clone());
            assert(texts(args@) =~= texts(before).push(flags@[j as int]@));
            assert(texts(flags@).take(j + 1) =~= texts(flags@).take(j as int).push(flags@[j as int]@));
            j += 1;
        }
        assert(texts(flags@).take(flags.len() as int) =~= texts(flags@));
        assert(texts(extra@) == words(user_args@));
        Some(ResolvedCommand { display_name: tool.display_name.clone(), command: tool.command.clone(), args })
    }

    /// Appends a line of output, dropping the oldest once 1000 are kept.
    pub fn add_output(&mut self, line: OutputLine)
        ensures
            final(self).command_output@ == bounded_push(old(self).command_output@, line),
            final(self).output_scroll_offset == old(self).output_scroll_offset,
            final(self).selected_category == old(self).selected_category,
            final(self).selected_tool == old(self).selected_tool,
            final(self).quality_tools == old(self).quality_tools,
            final(self).testing_tools == old(self).testing_tools,
    {
        push_output(&mut self.command_output, line);
    }

    /// Empties the output and scrolls back to the top.
    pub fn clear_output(&mut self)
        ensures
            final(self).command_output@.len() == 0,
            final(self).output_scroll_offset == 0,
            final(self).selected_category == old(self).selected_category,
            final(self).selected_tool == old(self).selected_tool,
            final(self).quality_tools == old(self).quality_tools,
            final(self).testing_tools == old(self).testing_tools,
    {
        self.command_output.clear();
        self.output_scroll_offset = 0;
    }
}

} // verus!
