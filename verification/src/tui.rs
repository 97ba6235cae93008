//! The dashboard's screens and modes, the labels it shows for its filters
//! and sort orders, and the cycles that its keys step through.
use vstd::prelude::*;
use crate::browser::{PackageFilter, SortMode, SelectionMode};

verus! {

/// Number of headlines on one page of the news reader.
pub const NEWS_PAGE_SIZE: usize = 25;

#[derive(Clone, Copy, Debug, PartialEq, Eq, Structural)]
pub enum CurrentScreen {
    Dashboard,
    Browser,
    News,
    Stats,
    History,
    Groups,
}

#[derive(Clone, Copy, Debug, PartialEq, Eq, Structural)]
pub enum DashboardWidget {
    Blahaj,
    News,
}

#[derive(Clone, Copy, Debug, PartialEq, Eq, Structural)]
pub enum InputMode {
    Normal,
    Editing,
}

#[derive(Clone, Copy, Debug, PartialEq, Eq, Structural)]
pub enum NewsFocus {
    List,
    Article,
}

#[derive(Clone, Copy, Debug, PartialEq, Eq, Structural)]
pub enum GroupSortMode {
    Alphabetical,
    PackageCount,
    InstallCompletion,
}

/// A headline of the Arch Linux news.
#[derive(Debug)]
pub struct NewsItem {
    pub title: String,
    pub link: String,
    pub pub_date: String,
    pub description: String,
    pub is_critical: bool,
}

pub open spec fn filter_label(f: PackageFilter) -> Seq<char> {
    match f {
        PackageFilter::All => "all"@,
        PackageFilter::Installed => "installed"@,
        PackageFilter::NotInstalled => "not installed"@,
        PackageFilter::Updates => "updates"@,
        PackageFilter::Aur => "aur"@,
        PackageFilter::Repositories => "repositories"@,
        PackageFilter::Repo(n) => "repo:"@ + n@,
        PackageFilter::Group(n) => "group:"@ + n@,
    }
}

pub open spec fn sort_label(m: SortMode) -> Seq<char> {
    match m {
        SortMode::Alphabetical => "alphabetical"@,
        SortMode::Installed => "installed"@,
        SortMode::Repository => "repository"@,
        SortMode::Relevance => "relevance"@,
    }
}

impl PackageFilter {
    /// The label the browser shows for the filter.
    pub fn label(&self) -> (r: String)
        ensures
            r@ == filter_label(*self),
    {
        match self {
            PackageFilter::All => "all".to_string(),
            PackageFilter::Installed => "installed".to_string(),
            PackageFilter::NotInstalled => "not installed".to_string(),
            PackageFilter::Updates => "updates".to_string(),
            PackageFilter::Aur => "aur".to_string(),
            PackageFilter::Repositories => "repositories".to_string(),
            PackageFilter::Repo(n) => "repo:".to_string().concat(n.as_str()),
            PackageFilter::Group(n) => "group:".to_string().concat(n.as_str()),
        }
    }
}

impl SortMode {
    /// The label the browser shows for the sort order.
    pub fn label(&self) -> (r: &'static str)
        ensures
            r@ == sort_label(*self),
    {
        match self {
            SortMode::Alphabetical => "alphabetical",
            SortMode::Installed => "installed",
            SortMode::Repository => "repository",
            SortMode::Relevance => "relevance",
        }
    }
}

pub open spec fn next_sort(m: SortMode) -> SortMode {
    match m {
        SortMode::Alphabetical => SortMode::Installed,
        SortMode::Installed => SortMode::Repository,
        SortMode::Repository => SortMode::Relevance,
        SortMode::Relevance => SortMode::Alphabetical,
    }
}

pub open spec fn next_group_sort(m: GroupSortMode) -> GroupSortMode {
    match m {
        GroupSortMode::Alphabetical => GroupSortMode::PackageCount,
        GroupSortMode::PackageCount => GroupSortMode::InstallCompletion,
        GroupSortMode::InstallCompletion => GroupSortMode::Alphabetical,
    }
}

/// The sort order after `S` in the browser.
pub fn cycle_sort_mode(m: SortMode) -> (r: SortMode)
    ensures
        r == next_sort(m),
{
    match m {
        SortMode::Alphabetical => SortMode::Installed,
        SortMode::Installed => SortMode::Repository,
        SortMode::Repository => SortMode::Relevance,
        SortMode::Relevance => SortMode::Alphabetical,
    }
}

/// The group order after `S` on the groups screen.
pub fn cycle_group_sort(m: GroupSortMode) -> (r: GroupSortMode)
    ensures
        r == next_group_sort(m),
{
    match m {
        GroupSortMode::Alphabetical => GroupSortMode::PackageCount,
        GroupSortMode::PackageCount => GroupSortMode::InstallCompletion,
        GroupSortMode::InstallCompletion => GroupSortMode::Alphabetical,
    }
}

/// The selection mode after `a` in the browser.
pub fn toggle_selection_mode(m: SelectionMode) -> (r: SelectionMode)
    ensures
        r != m,
{
    match m {
        SelectionMode::Explicit => SelectionMode::AllVisible,
        SelectionMode::AllVisible => SelectionMode::Explicit,
    }
}

/// The widget that tab (or back-tab) moves to on the dashboard.
pub fn toggle_widget(w: DashboardWidget) -> (r: DashboardWidget)
    ensures
        r != w,
{
    match w {
        DashboardWidget::Blahaj => DashboardWidget::News,
        DashboardWidget::News => DashboardWidget::Blahaj,
    }
}

/// The news pane that tab or enter moves the focus to.
pub fn toggle_news_focus(f: NewsFocus) -> (r: NewsFocus)
    ensures
        r != f,
{
    match f {
        NewsFocus::List => NewsFocus::Article,
        NewsFocus::Article => NewsFocus::List,
    }
}

/// The filter after tab in the browser, wrapping to the first.
pub fn next_filter_index(idx: usize, count: usize) -> (r: usize)
    requires
        count > 0,
    ensures
        r == (idx + 1) % (count as int),
{
    ((idx as u128 + 1) % (count as u128)) as usize
}

/// The filter after back-tab in the browser, wrapping to the last.
pub fn previous_filter_index(idx: usize, count: usize) -> (r: usize)
    requires
        count > 0,
    ensures
        r == if idx == 0 {
            count - 1
        } else {
            idx - 1
        },
{
    if idx == 0 {
        count - 1
    } else {
        idx - 1
    }
}

/// Four presses of `S` bring the browser back to its order.
pub proof fn law_sort_cycle(m: SortMode)
    ensures
        next_sort(next_sort(next_sort(next_sort(m)))) == m,
{
}

/// Three presses of `S` bring the groups back to their order.
pub proof fn law_group_sort_cycle(m: GroupSortMode)
    ensures
        next_group_sort(next_group_sort(next_group_sort(m))) == m,
{
}

} // verus!
