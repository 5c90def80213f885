//! The command palette: the commands it offers, the search over them, and
//! which entry is selected.
use vstd::prelude::*;
use crate::config::Language;
use crate::i18n::{t, translate};
use crate::repos::{lowercase, to_lowercase};
use crate::search::{matching_indices, positions_containing, strings_view};
use crate::text::{chars_of, concat, string_of};

verus! {

/// What a palette command does.
#[derive(Clone, Debug, PartialEq, Eq)]
pub enum PaletteAction {
    OpenRepo(usize),
    OpenSettings,
    ToggleSidebar,
    Pull,
    SetTheme(String),
}

pub enum ActionV {
    OpenRepo(usize),
    OpenSettings,
    ToggleSidebar,
    Pull,
    SetTheme(Seq<char>),
}

impl View for PaletteAction {
    type V = ActionV;

    open spec fn view(&self) -> ActionV {
        match self {
            PaletteAction::OpenRepo(i) => ActionV::OpenRepo(*i),
            PaletteAction::OpenSettings => ActionV::OpenSettings,
            PaletteAction::ToggleSidebar => ActionV::ToggleSidebar,
            PaletteAction::Pull => ActionV::Pull,
            PaletteAction::SetTheme(n) => ActionV::SetTheme(n@),
        }
    }
}

pub open spec fn commands_view(s: Seq<(String, PaletteAction)>) -> Seq<(Seq<char>, ActionV)> {
    s.map_values(|c: (String, PaletteAction)| (c.0@, c.1@))
}

/// The words before a repository's name in its command.
pub open spec fn open_repo_prefix(lang: Language) -> Seq<char> {
    match lang {
        Language::English => "Open repository: "@,
        Language::Japanese => "リポジトリを開く: "@,
    }
}

/// The words before a theme's name in its command.
pub open spec fn theme_prefix(lang: Language) -> Seq<char> {
    match lang {
        Language::English => "Theme: "@,
        Language::Japanese => "テーマ: "@,
    }
}

/// The commands the palette offers, in order: open the settings; expand or
/// collapse the sidebar; pull, when a repository is selected; open each
/// repository; follow the system theme; use each theme.
pub open spec fn palette_spec(
    lang: Language,
    sidebar_collapsed: bool,
    has_selection: bool,
    repo_names: Seq<Seq<char>>,
    system_theme: Seq<char>,
    theme_names: Seq<Seq<char>>,
) -> Seq<(Seq<char>, ActionV)> {
    seq![
        (translate(lang, "palette_open_settings"@), ActionV::OpenSettings),
        (translate(lang, if sidebar_collapsed { "palette_expand_sidebar"@ } else { "palette_collapse_sidebar"@ }), ActionV::ToggleSidebar),
    ] + (if has_selection {
        seq![(translate(lang, "palette_pull_selected"@), ActionV::Pull)]
    } else {
        Seq::empty()
    }) + Seq::new(repo_names.len(), |i: int| (open_repo_prefix(lang) + repo_names[i], ActionV::OpenRepo(i as usize)))
        + seq![(translate(lang, "palette_theme_system"@), ActionV::SetTheme(system_theme))]
        + Seq::new(theme_names.len(), |i: int| (theme_prefix(lang) + theme_names[i], ActionV::SetTheme(theme_names[i])))
}

fn open_repo_prefix_exec(lang: Language) -> (r: &'static str)
    ensures
        r@ == open_repo_prefix(lang),
{
    match lang {
        Language::English => "Open repository: ",
        Language::Japanese => "リポジトリを開く: ",
    }
}

fn theme_prefix_exec(lang: Language) -> (r: &'static str)
    ensures
        r@ == theme_prefix(lang),
{
    match lang {
        Language::English => "Theme: ",
        Language::Japanese => "テーマ: ",
    }
}

fn prefixed(prefix: &str, name: &String) -> (r: String)
    ensures
        r@ == prefix@ + name@,
{
    string_of(&concat(&chars_of(prefix), &chars_of(name.as_str())))
}

/// The commands of the palette (see `palette_spec`); `system_theme` is the
/// name under which the theme that follows the system is chosen.
pub fn palette_commands(
    lang: Language,
    sidebar_collapsed: bool,
    has_selection: bool,
    repo_names: &Vec<String>,
    system_theme: &str,
    theme_names: &Vec<String>,
) -> (r: Vec<(String, PaletteAction)>)
    ensures
        commands_view(r@) == palette_spec(
            lang,
            sidebar_collapsed,
            has_selection,
            strings_view(repo_names@),
            system_theme@,
            strings_view(theme_names@),
        ),
{
    let ghost rn = strings_view(repo_names@);
    let ghost tn = strings_view(theme_names@);
    let mut cmds: Vec<(String, PaletteAction)> = Vec::new();
    cmds.push((crate::git::lit(t(lang, "palette_open_settings")), PaletteAction::OpenSettings));
    let toggle = if sidebar_collapsed {
        t(lang, "palette_expand_sidebar")
    } else {
        t(lang, "palette_collapse_sidebar")
    };
    cmds.push((crate::git::lit(toggle), PaletteAction::ToggleSidebar));
    if has_selection {
        cmds.push((crate::git::lit(t(lang, "palette_pull_selected")), PaletteAction::Pull));
    }
    let ghost head = commands_view(cmds@);
    assert(head =~= seq![
        (translate(lang, "palette_open_settings"@), ActionV::OpenSettings),
        (translate(lang, if sidebar_collapsed { "palette_expand_sidebar"@ } else { "palette_collapse_sidebar"@ }), ActionV::ToggleSidebar),
    ] + (if has_selection {
        seq![(translate(lang, "palette_pull_selected"@), ActionV::Pull)]
    } else {
        Seq::empty()
    }));
    let ghost repo_part = Seq::new(rn.len(), |i: int| (open_repo_prefix(lang) + rn[i], ActionV::OpenRepo(i as usize)));
    let rp = open_repo_prefix_exec(lang);
    let mut i: usize = 0;
    while i < repo_names.len()
        invariant
            i <= repo_names@.len(),
            rn == strings_view(repo_names@),
            rp@ == open_repo_prefix(lang),
            repo_part == Seq::new(rn.len(), |i: int| (open_repo_prefix(lang) + rn[i], ActionV::OpenRepo(i as usize))),
            commands_view(cmds@) == head + repo_part.take(i as int),
        decreases repo_names.len() - i,
    {
        let label = prefixed(rp, &repo_names[i]);
        let ghost prev = commands_view(cmds@);
        cmds.push((label, PaletteAction::OpenRepo(i)));
        assert(commands_view(cmds@) =~= prev.push(repo_part[i as int]));
        assert(repo_part.take(i + 1) =~= repo_part.take(i as int).push(repo_part[i as int]));
        i = i + 1;
    }
    assert(repo_part.take(rn.len() as int) =~= repo_part);
    let ghost mid = commands_view(cmds@);
    cmds.push((crate::git::lit(t(lang, "palette_theme_system")), PaletteAction::SetTheme(crate::git::lit(system_theme))));
    let ghost mid2 = commands_view(cmds@);
    assert(mid2 =~= mid + seq![(translate(lang, "palette_theme_system"@), ActionV::SetTheme(system_theme@))]);
    let ghost theme_part = Seq::new(tn.len(), |i: int| (theme_prefix(lang) + tn[i], ActionV::SetTheme(tn[i])));
    let tp = theme_prefix_exec(lang);
    let mut j: usize = 0;
    while j < theme_names.len()
        invariant
            j <= theme_names@.len(),
            tn == strings_view(theme_names@),
            tp@ == theme_prefix(lang),
            theme_part == Seq::new(tn.len(), |i: int| (theme_prefix(lang) + tn[i], ActionV::SetTheme(tn[i]))),
            commands_view(cmds@) == mid2 + theme_part.take(j as int),
        decreases theme_names.len() - j,
    {
        let label = prefixed(tp, &theme_names[j]);
        let name = crate::git::lit(theme_names[j].as_str());
        let ghost prev = commands_view(cmds@);
        cmds.push((label, PaletteAction::SetTheme(name)));
        assert(commands_view(cmds@) =~= prev.push(theme_part[j as int]));
        assert(theme_part.take(j + 1) =~= theme_part.take(j as int).push(theme_part[j as int]));
        j = j + 1;
    }
    assert(theme_part.take(tn.len() as int) =~= theme_part);
    cmds
}


// ---------------------------------------------------------------------------
// Searching the commands

/// The commands whose label contains the query, ignoring case, by position.
pub fn filter_palette(commands: &Vec<(String, PaletteAction)>, query: &str) -> (r: Vec<usize>)
    ensures
        r@ == matching_indices(
            commands_view(commands@).map_values(|c: (Seq<char>, ActionV)| lowercase(c.0)),
            lowercase(query@),
        ),
{
    let q = to_lowercase(query);
    let ghost lf = |c: (Seq<char>, ActionV)| lowercase(c.0);
    let ghost cv = commands_view(commands@);
    let mut lowered: Vec<String> = Vec::new();
    let mut i: usize = 0;
    while i < commands.len()
        invariant
            i <= commands@.len(),
            cv == commands_view(commands@),
            lf == (|c: (Seq<char>, ActionV)| lowercase(c.0)),
            strings_view(lowered@) == cv.take(i as int).map_values(lf),
        decreases commands.len() - i,
    {
        let l = to_lowercase(commands[i].0.as_str());
        let ghost prev = lowered@;
        lowered.push(l);
        assert(strings_view(lowered@) =~= cv.take(i + 1).map_values(lf)) by {
            assert(strings_view(prev) =~= cv.take(i as int).map_values(lf));
            assert(cv[i as int].0 == commands@[i as int].0@);
            assert(lowered@ =~= prev.push(l));
            assert(strings_view(lowered@) =~= strings_view(prev).push(l@));
            assert(cv.take(i + 1).map_values(lf) =~= cv.take(i as int).map_values(lf).push(lf(cv[i as int])));
        }
        i = i + 1;
    }
    assert(cv.take(commands@.len() as int) =~= cv);
    positions_containing(&lowered, q.as_str())
}

// ---------------------------------------------------------------------------
// The selected entry

/// The selected entry after one frame, among `n` shown: first brought back
/// onto the last entry when it lies past the end, then moved one down
/// (wrapping to the top) and one up (wrapping to the bottom) as the arrow
/// keys were pressed.
pub open spec fn next_selection(selected: nat, n: nat, up: bool, down: bool) -> nat {
    let s0: nat = if selected >= n { if n == 0 { 0 } else { (n - 1) as nat } } else { selected };
    let s1: nat = if down && n > 0 { (s0 + 1) % n } else { s0 };
    if up && n > 0 {
        if s1 == 0 { (n - 1) as nat } else { (s1 - 1) as nat }
    } else {
        s1
    }
}

/// `next_selection` of the current selection, the number of entries shown,
/// and the arrow keys pressed.
pub fn palette_selection(selected: usize, n: usize, up: bool, down: bool) -> (r: usize)
    ensures
        r == next_selection(selected as nat, n as nat, up, down),
        n > 0 ==> r < n,
        n == 0 ==> r == 0,
{
    let mut s = selected;
    if s >= n {
        s = if n == 0 { 0 } else { n - 1 };
    }
    if down && n > 0 {
        s = (s + 1) % n;
    }
    if up && n > 0 {
        s = if s == 0 { n - 1 } else { s - 1 };
    }
    s
}

/// Moving down and then up leaves a selection among the shown entries
/// where it was.
pub proof fn lemma_selection_down_up(selected: nat, n: nat)
    requires
        selected < n,
    ensures
        next_selection(next_selection(selected, n, false, true), n, true, false) == selected,
        next_selection(selected, n, true, true) == selected,
{
    if selected + 1 < n {
        assert((selected + 1) % n == selected + 1) by (nonlinear_arith)
            requires selected + 1 < n;
    } else {
        assert((selected + 1) % n == 0) by (nonlinear_arith)
            requires selected + 1 == n;
    }
}



// ---------------------------------------------------------------------------
// Stepping back

/// What Escape closes: the innermost thing that is open.
#[derive(Clone, Copy, Debug, PartialEq, Eq, Structural)]
pub enum EscapeStep {
    ClosePalette,
    CloseSearch,
    ClearLineSelection,
    CloseDiff,
    CloseSettings,
    CloseRepository,
    Nothing,
}

/// The step back Escape takes: the command palette, then the diff search,
/// the selected diff line, the diff view, the settings, and last the
/// repository's dashboard.
pub open spec fn escape_spec(
    palette_open: bool,
    search_visible: bool,
    line_selected: bool,
    viewing_diff: bool,
    viewing_settings: bool,
    repo_selected: bool,
) -> EscapeStep {
    if palette_open {
        EscapeStep::ClosePalette
    } else if search_visible {
        EscapeStep::CloseSearch
    } else if line_selected {
        EscapeStep::ClearLineSelection
    } else if viewing_diff {
        EscapeStep::CloseDiff
    } else if viewing_settings {
        EscapeStep::CloseSettings
    } else if repo_selected {
        EscapeStep::CloseRepository
    } else {
        EscapeStep::Nothing
    }
}

/// `escape_spec`.
pub fn escape_step(
    palette_open: bool,
    search_visible: bool,
    line_selected: bool,
    viewing_diff: bool,
    viewing_settings: bool,
    repo_selected: bool,
) -> (r: EscapeStep)
    ensures
        r == escape_spec(palette_open, search_visible, line_selected, viewing_diff, viewing_settings, repo_selected),
{
    if palette_open {
        EscapeStep::ClosePalette
    } else if search_visible {
        EscapeStep::CloseSearch
    } else if line_selected {
        EscapeStep::ClearLineSelection
    } else if viewing_diff {
        EscapeStep::CloseDiff
    } else if viewing_settings {
        EscapeStep::CloseSettings
    } else if repo_selected {
        EscapeStep::CloseRepository
    } else {
        EscapeStep::Nothing
    }
}

} // verus!
