//! The regions of the screen, in drawing order, and what each one shows
//! for the page and the focus.
use vstd::prelude::*;

use crate::screen::{Focus, InputScreen, Page};

verus! {

/// A region of the screen, in drawing order.
#[derive(Clone, Copy, Debug, PartialEq, Eq, Structural, PartialOrd, Ord, Hash)]
pub enum Region {
    TargetHeader,
    TargetValue,
    TargetEditor,
    TargetCandidates,
    TargetStatus,
    WorkflowHeader,
    WorkflowValue,
    WorkflowEditor,
    WorkflowCandidates,
    WorkflowStatus,
    WorkflowSpacer,
    Fields,
    Editor,
    Candidates,
    Status,
    Page,
}

/// What a region shows.
#[derive(Clone, Copy, Debug, PartialEq, Eq, Structural)]
pub enum RegionContent {
    /// Nothing: the region takes no row.
    Empty,
    /// The help page: the text of `help_text`.
    Help,
    /// The bold "Destination" heading.
    TargetHeader,
    /// The line with the chosen destination.
    TargetValue,
    /// The destination query editor.
    TargetEditor,
    /// The destination tree.
    TargetCandidates,
    /// The destination status line.
    TargetStatus,
    /// The workflow heading.
    WorkflowHeader,
    /// The line with the chosen workflow.
    WorkflowValue,
    /// The workflow query editor.
    WorkflowEditor,
    /// The workflow list.
    WorkflowCandidates,
    /// The workflow chooser's status line.
    WorkflowStatus,
    /// One blank row.
    Spacer,
    /// The list of inputs.
    Fields,
    /// The editor of this input.
    FieldEditor(usize),
    /// The candidates of this input.
    FieldCandidates(usize),
    /// The status line of this input.
    FieldStatus(usize),
}

/// What the help page says: the keys and what they do.
pub open spec fn help_page_text() -> Seq<char> {
    "Convey help\n\nNavigation\n  Tab / Down       Move to the next candidate or section\n  Shift+Tab / Up   Move to the previous candidate or section\n  Enter            Save a selection and move\n  Ctrl+Enter       Save a textarea and move\n\nCommands\n  Ctrl+R           Refresh destinations or retry candidates\n  Ctrl+S           Submit\n  Esc / Ctrl+C     Cancel\n\nPress Ctrl+G or Esc to return"@
}

/// The text that the help page shows.
pub fn help_text() -> (res: &'static str)
    ensures
        res@ == help_page_text(),
{
    "Convey help\n\nNavigation\n  Tab / Down       Move to the next candidate or section\n  Shift+Tab / Up   Move to the previous candidate or section\n  Enter            Save a selection and move\n  Ctrl+Enter       Save a textarea and move\n\nCommands\n  Ctrl+R           Refresh destinations or retry candidates\n  Ctrl+S           Submit\n  Esc / Ctrl+C     Cancel\n\nPress Ctrl+G or Esc to return"
}

/// Every region, in drawing order.
pub open spec fn all_regions() -> Seq<Region> {
    seq![
        Region::TargetHeader,
        Region::TargetValue,
        Region::TargetEditor,
        Region::TargetCandidates,
        Region::TargetStatus,
        Region::WorkflowHeader,
        Region::WorkflowValue,
        Region::WorkflowEditor,
        Region::WorkflowCandidates,
        Region::WorkflowStatus,
        Region::WorkflowSpacer,
        Region::Fields,
        Region::Editor,
        Region::Candidates,
        Region::Status,
        Region::Page,
    ]
}

/// What `region` shows on the input page when `focus` has the focus: the
/// editor, candidates and status of the destination, of the workflow and
/// of an input only while that one has the focus, a spacer below the
/// workflow list while the workflow has it.
pub open spec fn input_page_content(region: Region, focus: Focus) -> RegionContent {
    match region {
        Region::TargetHeader => RegionContent::TargetHeader,
        Region::TargetValue => RegionContent::TargetValue,
        Region::TargetEditor => if focus == Focus::Target {
            RegionContent::TargetEditor
        } else {
            RegionContent::Empty
        },
        Region::TargetCandidates => if focus == Focus::Target {
            RegionContent::TargetCandidates
        } else {
            RegionContent::Empty
        },
        Region::TargetStatus => if focus == Focus::Target {
            RegionContent::TargetStatus
        } else {
            RegionContent::Empty
        },
        Region::WorkflowHeader => RegionContent::WorkflowHeader,
        Region::WorkflowValue => RegionContent::WorkflowValue,
        Region::WorkflowEditor => if focus == Focus::Workflow {
            RegionContent::WorkflowEditor
        } else {
            RegionContent::Empty
        },
        Region::WorkflowCandidates => if focus == Focus::Workflow {
            RegionContent::WorkflowCandidates
        } else {
            RegionContent::Empty
        },
        Region::WorkflowStatus => if focus == Focus::Workflow {
            RegionContent::WorkflowStatus
        } else {
            RegionContent::Empty
        },
        Region::WorkflowSpacer => if focus == Focus::Workflow {
            RegionContent::Spacer
        } else {
            RegionContent::Empty
        },
        Region::Fields => RegionContent::Fields,
        Region::Editor => match focus {
            Focus::Field(i) => RegionContent::FieldEditor(i),
            _ => RegionContent::Empty,
        },
        Region::Candidates => match focus {
            Focus::Field(i) => RegionContent::FieldCandidates(i),
            _ => RegionContent::Empty,
        },
        Region::Status => match focus {
            Focus::Field(i) => RegionContent::FieldStatus(i),
            _ => RegionContent::Empty,
        },
        Region::Page => RegionContent::Empty,
    }
}

/// What `region` shows on `page`: on the help page the help text alone.
pub open spec fn region_content(region: Region, page: Page, focus: Focus) -> RegionContent {
    match page {
        Page::Help => if region == Region::Page {
            RegionContent::Help
        } else {
            RegionContent::Empty
        },
        Page::Input => input_page_content(region, focus),
    }
}

/// The regions drawn for `page`, each with what it shows: the help page
/// alone, or every region but the page one.
pub open spec fn drawn_regions(page: Page, focus: Focus) -> Seq<(Region, RegionContent)> {
    match page {
        Page::Help => seq![(Region::Page, RegionContent::Help)],
        Page::Input => all_regions().take(15).map_values(|r: Region| (r, input_page_content(r, focus))),
    }
}

fn input_page_content_of(region: Region, focus: Focus) -> (res: RegionContent)
    ensures
        res == input_page_content(region, focus),
{
    let on_target = match focus {
        Focus::Target => true,
        _ => false,
    };
    let on_workflow = match focus {
        Focus::Workflow => true,
        _ => false,
    };
    match region {
        Region::TargetHeader => RegionContent::TargetHeader,
        Region::TargetValue => RegionContent::TargetValue,
        Region::TargetEditor => if on_target {
            RegionContent::TargetEditor
        } else {
            RegionContent::Empty
        },
        Region::TargetCandidates => if on_target {
            RegionContent::TargetCandidates
        } else {
            RegionContent::Empty
        },
        Region::TargetStatus => if on_target {
            RegionContent::TargetStatus
        } else {
            RegionContent::Empty
        },
        Region::WorkflowHeader => RegionContent::WorkflowHeader,
        Region::WorkflowValue => RegionContent::WorkflowValue,
        Region::WorkflowEditor => if on_workflow {
            RegionContent::WorkflowEditor
        } else {
            RegionContent::Empty
        },
        Region::WorkflowCandidates => if on_workflow {
            RegionContent::WorkflowCandidates
        } else {
            RegionContent::Empty
        },
        Region::WorkflowStatus => if on_workflow {
            RegionContent::WorkflowStatus
        } else {
            RegionContent::Empty
        },
        Region::WorkflowSpacer => if on_workflow {
            RegionContent::Spacer
        } else {
            RegionContent::Empty
        },
        Region::Fields => RegionContent::Fields,
        Region::Editor => match focus {
            Focus::Field(i) => RegionContent::FieldEditor(i),
            _ => RegionContent::Empty,
        },
        Region::Candidates => match focus {
            Focus::Field(i) => RegionContent::FieldCandidates(i),
            _ => RegionContent::Empty,
        },
        Region::Status => match focus {
            Focus::Field(i) => RegionContent::FieldStatus(i),
            _ => RegionContent::Empty,
        },
        Region::Page => RegionContent::Empty,
    }
}

fn all_regions_vec() -> (res: Vec<Region>)
    ensures
        res@ == all_regions(),
{
    let res = vec![
        Region::TargetHeader,
        Region::TargetValue,
        Region::TargetEditor,
        Region::TargetCandidates,
        Region::TargetStatus,
        Region::WorkflowHeader,
        Region::WorkflowValue,
        Region::WorkflowEditor,
        Region::WorkflowCandidates,
        Region::WorkflowStatus,
        Region::WorkflowSpacer,
        Region::Fields,
        Region::Editor,
        Region::Candidates,
        Region::Status,
        Region::Page,
    ];
    assert(res@ =~= all_regions());
    res
}

impl InputScreen {
    /// The regions to draw, in order, each with what it shows.
    pub fn regions(&self) -> (res: Vec<(Region, RegionContent)>)
        ensures
            res@ == drawn_regions(self.page_view(), self.focus_view()),
    {
        let focus = self.focus();
        match self.page() {
            Page::Help => {
                let res = vec![(Region::Page, RegionContent::Help)];
                assert(res@ =~= drawn_regions(self.page_view(), self.focus_view()));
                res
            },
            Page::Input => {
                let all = all_regions_vec();
                let mut res: Vec<(Region, RegionContent)> = Vec::new();
                let mut k: usize = 0;
                while k < 15
                    invariant
                        k <= 15,
                        all@ == all_regions(),
                        focus == self.focus_view(),
                        res@ == all_regions().take(k as int).map_values(
                            |r: Region| (r, input_page_content(r, focus)),
                        ),
                    decreases 15 - k,
                {
                    let r = all[k];
                    res.push((r, input_page_content_of(r, focus)));
                    assert(all_regions().take((k + 1) as int) =~= all_regions().take(k as int).push(r));
                    k += 1;
                    assert(res@ =~= all_regions().take(k as int).map_values(
                        |r: Region| (r, input_page_content(r, focus)),
                    ));
                }
                res
            },
        }
    }

    /// Every region, in order, with what it shows, nothing where it is not
    /// drawn: what replaces the whole screen.
    pub fn region_updates(&self) -> (res: Vec<(Region, RegionContent)>)
        ensures
            res@ == all_regions().map_values(
                |r: Region| (r, region_content(r, self.page_view(), self.focus_view())),
            ),
    {
        let focus = self.focus();
        let page = self.page();
        let all = all_regions_vec();
        let mut res: Vec<(Region, RegionContent)> = Vec::new();
        let mut k: usize = 0;
        while k < all.len()
            invariant
                k <= all.len(),
                all@ == all_regions(),
                focus == self.focus_view(),
                page == self.page_view(),
                res@ == all_regions().take(k as int).map_values(
                    |r: Region| (r, region_content(r, page, focus)),
                ),
            decreases all.len() - k,
        {
            let r = all[k];
            let content = match page {
                Page::Help => match r {
                    Region::Page => RegionContent::Help,
                    _ => RegionContent::Empty,
                },
                Page::Input => input_page_content_of(r, focus),
            };
            res.push((r, content));
            assert(all_regions().take((k + 1) as int) =~= all_regions().take(k as int).push(r));
            k += 1;
            assert(res@ =~= all_regions().take(k as int).map_values(
                |r: Region| (r, region_content(r, page, focus)),
            ));
        }
        assert(all_regions().take(16) =~= all_regions());
        res
    }
}

} // verus!
