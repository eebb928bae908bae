use vstd::prelude::*;

verus! {

/// The final component of a path, as `std::path::Path::file_name` gives it.
pub uninterp spec fn file_name_of(path: Seq<char>) -> Option<Seq<char>>;

/// Relies on `std::path::Path::file_name`: the last component of the path, or `None`
/// when the path ends in `..` or has no components. Its result depends on the text alone.
#[verifier::external_body]
pub(crate) fn file_name(path: &str) -> (r: Option<String>)
    ensures
        match r {
            Some(n) => file_name_of(path@) == Some(n@),
            None => file_name_of(path@) is None,
        },
{
    std::path::Path::new(path).file_name().and_then(|n| n.to_str()).map(|n| n.to_string())
}

/// Which confirmation a dialog asks for, and about what.
pub enum ModalType {
    ConfirmDelete { path: String, size: u64 },
    FinalConfirm { path: String, size: u64 },
}

#[derive(Clone, Copy, Debug, PartialEq, Eq, Structural)]
pub enum ModalAction {
    Confirm,
    DryRun,
    Cancel,
}

/// A confirmation dialog: its kind, its buttons and the one selected.
pub struct Modal {
    pub modal_type: ModalType,
    pub selected_button: usize,
    pub buttons: Vec<(String, ModalAction)>,
}

pub open spec fn buttons_view(b: Seq<(String, ModalAction)>) -> Seq<(Seq<char>, ModalAction)> {
    b.map_values(|x: (String, ModalAction)| (x.0@, x.1))
}

pub open spec fn title_spec(prefix: Seq<char>, path: Seq<char>, size_label: Seq<char>) -> Seq<char> {
    let name = match file_name_of(path) {
        Some(n) => n,
        None => "?"@,
    };
    prefix + name + " ("@ + size_label + ")? "@
}

impl Modal {
    /// Well formed: at least one button, and the selected one exists.
    pub open spec fn wf(&self) -> bool {
        0 < self.buttons@.len() && self.selected_button < self.buttons@.len()
    }

    /// The first confirmation: Yes, No or Dry-run, with Yes selected.
    pub fn confirm_delete(path: &String, size: u64) -> (r: Modal)
        ensures
            r.wf(),
            r.modal_type == (ModalType::ConfirmDelete { path: *path, size }),
            r.selected_button == 0,
            buttons_view(r.buttons@) == seq![
                ("Yes"@, ModalAction::Confirm),
                ("No"@, ModalAction::Cancel),
                ("Dry-run"@, ModalAction::DryRun),
            ],
    {
        let mut buttons: Vec<(String, ModalAction)> = Vec::new();
        buttons.push(("Yes".to_owned(), ModalAction::Confirm));
        buttons.push(("No".to_owned(), ModalAction::Cancel));
        buttons.push(("Dry-run".to_owned(), ModalAction::DryRun));
        let r = Modal {
            modal_type: ModalType::ConfirmDelete { path: path.clone(), size },
            selected_button: 0,
            buttons,
        };
        assert(buttons_view(r.buttons@) =~= seq![
            ("Yes"@, ModalAction::Confirm),
            ("No"@, ModalAction::Cancel),
            ("Dry-run"@, ModalAction::DryRun),
        ]);
        r
    }

    /// The last confirmation before anything is removed, with Cancel selected.
    pub fn final_confirm(path: &String, size: u64) -> (r: Modal)
        ensures
            r.wf(),
            r.modal_type == (ModalType::FinalConfirm { path: *path, size }),
            r.selected_button == 1,
            buttons_view(r.buttons@) == seq![
                ("YES, DELETE"@, ModalAction::Confirm),
                ("Cancel"@, ModalAction::Cancel),
            ],
    {
        let mut buttons: Vec<(String, ModalAction)> = Vec::new();
        buttons.push(("YES, DELETE".to_owned(), ModalAction::Confirm));
        buttons.push(("Cancel".to_owned(), ModalAction::Cancel));
        let r = Modal {
            modal_type: ModalType::FinalConfirm { path: path.clone(), size },
            selected_button: 1,
            buttons,
        };
        assert(buttons_view(r.buttons@) =~= seq![
            ("YES, DELETE"@, ModalAction::Confirm),
            ("Cancel"@, ModalAction::Cancel),
        ]);
        r
    }

    /// Whether a button carries exactly this label.
    pub fn has_button(&self, label: &str) -> (r: bool)
        ensures
            r == exists|i: int| 0 <= i < self.buttons@.len() && (#[trigger] self.buttons@[i]).0@ == label@,
    {
        let wanted = label.to_owned();
        let mut i: usize = 0;
        while i < self.buttons.len()
            invariant
                i <= self.buttons@.len(),
                wanted@ == label@,
                forall|k: int| 0 <= k < i ==> (#[trigger] self.buttons@[k]).0@ != label@,
            decreases self.buttons.len() - i,
        {
            if self.buttons[i].0 == wanted {
                return true;
            }
            i = i + 1;
        }
        false
    }

    /// The dialog's title, given the size already written out for display.
    pub fn get_title(&self, size_label: &str) -> (r: String)
        ensures
            r@ == match self.modal_type {
                ModalType::ConfirmDelete { path, .. } => title_spec("Delete "@, path@, size_label@),
                ModalType::FinalConfirm { path, .. } => title_spec(
                    "FINAL CONFIRMATION - Delete "@,
                    path@,
                    size_label@,
                ),
            },
    {
        let (mut title, path) = match &self.modal_type {
            ModalType::ConfirmDelete { path, .. } => ("Delete ".to_owned(), path),
            ModalType::FinalConfirm { path, .. } => ("FINAL CONFIRMATION - Delete ".to_owned(), path),
        };
        match file_name(path.as_str()) {
            Some(n) => title.append(n.as_str()),
            None => title.append("?"),
        }
        title.append(" (");
        title.append(size_label);
        title.append(")? ");
        title
    }

    pub fn get_message(&self) -> (r: String)
        ensures
            r@ == match self.modal_type {
                ModalType::ConfirmDelete { .. } => "This cannot be undone!"@,
                ModalType::FinalConfirm { .. } => "Really confirm? This is your last chance!"@,
            },
    {
        match &self.modal_type {
            ModalType::ConfirmDelete { .. } => "This cannot be undone!".to_owned(),
            ModalType::FinalConfirm { .. } => "Really confirm? This is your last chance!".to_owned(),
        }
    }

    /// Moves the selection one button to the left, stopping at the first.
    pub fn select_left(&mut self)
        requires
            old(self).wf(),
        ensures
            final(self).wf(),
            final(self).selected_button == if old(self).selected_button > 0 {
                (old(self).selected_button - 1) as usize
            } else {
                0
            },
            final(self).buttons == old(self).buttons,
            final(self).modal_type == old(self).modal_type,
    {
        if self.selected_button > 0 {
            self.selected_button = self.selected_button - 1;
        }
    }

    /// Moves the selection one button to the right, stopping at the last.
    pub fn select_right(&mut self)
        requires
            old(self).wf(),
        ensures
            final(self).wf(),
            final(self).selected_button == if old(self).selected_button + 1 < old(self).buttons@.len() {
                (old(self).selected_button + 1) as usize
            } else {
                old(self).selected_button
            },
            final(self).buttons == old(self).buttons,
            final(self).modal_type == old(self).modal_type,
    {
        if self.selected_button < self.buttons.len() - 1 {
            self.selected_button = self.selected_button + 1;
        }
    }

    /// Moves the selection to the next button, wrapping from the last to the first.
    pub fn select_next(&mut self)
        requires
            old(self).wf(),
        ensures
            final(self).wf(),
            final(self).selected_button == (old(self).selected_button + 1) % (old(
                self,
            ).buttons@.len() as int),
            final(self).buttons == old(self).buttons,
            final(self).modal_type == old(self).modal_type,
    {
        let n = self.buttons.len();
        let s = self.selected_button;
        assert(s < n);
        self.selected_button = (s + 1) % n;
    }

    /// Moves the selection to the previous button, wrapping from the first to the last.
    pub fn select_previous(&mut self)
        requires
            old(self).wf(),
        ensures
            final(self).wf(),
            final(self).selected_button == if old(self).selected_button > 0 {
                old(self).selected_button - 1
            } else {
                old(self).buttons@.len() - 1
            },
            final(self).buttons == old(self).buttons,
            final(self).modal_type == old(self).modal_type,
    {
        if self.selected_button > 0 {
            self.selected_button = self.selected_button - 1;
        } else {
            self.selected_button = self.buttons.len() - 1;
        }
    }

    /// The action of the selected button.
    pub fn selected_action(&self) -> (r: ModalAction)
        requires
            self.wf(),
        ensures
            r == self.buttons@[self.selected_button as int].1,
    {
        self.buttons[self.selected_button].1
    }
}

} // verus!
