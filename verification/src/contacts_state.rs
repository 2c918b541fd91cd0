//! The contacts page as a state machine: the address book, the search, the
//! order, the rows and the selected person, and what each input asks of the
//! page.

use vstd::prelude::*;
use crate::contacts::{
    contact_rows, contacts_sorted, matching_contacts, reselect, same_primary, selected_row, Contact, ContactSort,
};
use crate::text::{to_lowercase, unicode_lower};

verus! {

/// The page's state.
pub struct ContactsPage {
    pub contacts: Vec<Contact>,
    /// The search, lower-cased.
    pub query: String,
    pub sort: ContactSort,
    pub loading: bool,
    /// The contact shown in detail (its position in `contacts`).
    pub selected: Option<usize>,
    /// The rows: positions of the matching contacts, in order.
    pub rows: Vec<usize>,
}

/// What the page is told.
pub enum ContactsPageInput {
    SetContacts(Vec<Contact>),
    SetLoading,
    Query(String),
    SetSort(ContactSort),
    /// The row at this position was selected.
    RowSelected(usize),
}

/// What the page does after an input.
pub struct ContactsEffects {
    /// The rows were built again (from `rows`).
    pub rebuilt: bool,
    /// Show the "no contacts" page (`Some(true)`) or the browser.
    pub empty_page: Option<bool>,
    /// Select the row at this position.
    pub select_row: Option<usize>,
    /// Show the selected contact's details.
    pub render_detail: bool,
}

pub open spec fn unmoved() -> ContactsEffects {
    ContactsEffects { rebuilt: false, empty_page: None, select_row: None, render_detail: false }
}

/// The same address, or both without one.
pub open spec fn same_primary_as(a: Option<String>, b: Option<String>) -> bool {
    match (a, b) {
        (Some(x), Some(y)) => x@ == y@,
        (None, None) => true,
        _ => false,
    }
}

/// `r` is the first contact with this name and primary address, or `None`
/// when there is none.
pub open spec fn found_again(cs: Seq<Contact>, name: Seq<char>, primary: Option<String>, r: Option<usize>) -> bool {
    match r {
        Some(i) => i < cs.len() && cs[i as int].name@ == name && same_primary_as(cs[i as int].primary, primary)
            && forall|k: int| 0 <= k < i ==> !(cs[k].name@ == name && same_primary_as(cs[k].primary, primary)),
        None => forall|k: int|
            0 <= k < cs.len() ==> !(#[trigger] cs[k].name@ == name && same_primary_as(cs[k].primary, primary)),
    }
}

/// `p` is the row selected after a rebuild: the selected contact's row
/// where it is still listed, else the first row, else none.
pub open spec fn row_for(rows: Seq<usize>, selected: Option<usize>, p: Option<usize>) -> bool {
    match p {
        Some(p) => p < rows.len() && (match selected {
            Some(s) => (rows[p as int] == s && forall|k: int| 0 <= k < p ==> rows[k] != s) || (p == 0 && !rows.contains(
                s,
            )),
            None => p == 0,
        }),
        None => rows.len() == 0,
    }
}

/// The page after its rows are built again from `old`'s contacts, search
/// and order, with `old.selected` carried over where it can be.
pub open spec fn rebuilt_from(old: ContactsPage, new: ContactsPage, fx: ContactsEffects) -> bool {
    &&& new.contacts == old.contacts && new.query == old.query && new.sort == old.sort && new.loading == old.loading
    &&& contacts_sorted(
        old.contacts@,
        old.sort,
        matching_contacts(old.contacts@, old.query@, old.contacts@.len() as int),
        new.rows@,
    )
    &&& row_for(new.rows@, old.selected, fx.select_row)
    &&& new.selected == (match fx.select_row {
        Some(p) => Some(new.rows@[p as int]),
        None => None,
    })
    &&& fx.rebuilt && fx.render_detail
    &&& fx.empty_page == Some(old.contacts@.len() == 0)
}

/// What an input does to the page and what it asks for.
pub open spec fn contacts_next(old: ContactsPage, e: ContactsPageInput, new: ContactsPage, fx: ContactsEffects) -> bool {
    match e {
        ContactsPageInput::SetLoading => new == ContactsPage { loading: true, ..old } && fx == ContactsEffects {
            empty_page: if old.contacts@.len() == 0 {
                Some(true)
            } else {
                None
            },
            ..unmoved()
        },
        ContactsPageInput::SetContacts(cs) => exists|mid: ContactsPage|
            #![trigger rebuilt_from(mid, new, fx)]
            mid.contacts@ == cs@ && mid.query == old.query && mid.sort == old.sort && !mid.loading
                && found_kept(old, cs@, mid.selected) && rebuilt_from(mid, new, fx),
        ContactsPageInput::Query(q) => exists|mid: ContactsPage|
            #![trigger rebuilt_from(mid, new, fx)]
            mid == ContactsPage { query: mid.query, ..old } && mid.query@ == unicode_lower(q@) && rebuilt_from(
                mid,
                new,
                fx,
            ),
        ContactsPageInput::SetSort(s) => if s == old.sort {
            new == old && fx == unmoved()
        } else {
            rebuilt_from(ContactsPage { sort: s, ..old }, new, fx)
        },
        ContactsPageInput::RowSelected(row) => if row < old.rows@.len() && old.selected != Some(old.rows@[row as int]) {
            new == ContactsPage { selected: Some(old.rows@[row as int]), ..old } && fx == ContactsEffects {
                render_detail: true,
                ..unmoved()
            }
        } else {
            new == old && fx == unmoved()
        },
    }
}

/// After new contacts arrive, the person selected before is found again by
/// name and primary address.
pub open spec fn found_kept(old: ContactsPage, cs: Seq<Contact>, selected: Option<usize>) -> bool {
    match old.selected {
        Some(i) => if i < old.contacts@.len() {
            found_again(cs, old.contacts@[i as int].name@, old.contacts@[i as int].primary, selected)
        } else {
            selected is None
        },
        None => selected is None,
    }
}

impl ContactsPage {
    /// An empty page, loading.
    pub fn new(sort: ContactSort) -> (m: ContactsPage)
        ensures
            m.contacts@.len() == 0 && m.query@.len() == 0 && m.rows@.len() == 0,
            m.sort == sort,
            m.loading,
            m.selected is None,
    {
        ContactsPage {
            contacts: Vec::new(),
            query: String::new(),
            sort,
            loading: true,
            selected: None,
            rows: Vec::new(),
        }
    }

    fn rebuild(&mut self) -> (fx: ContactsEffects)
        ensures
            rebuilt_from(*old(self), *final(self), fx),
    {
        let rows = contact_rows(self.contacts.as_slice(), self.query.as_str(), self.sort);
        let pos = selected_row(&rows, self.selected);
        self.selected = match pos {
            Some(p) => Some(rows[p]),
            None => None,
        };
        self.rows = rows;
        ContactsEffects {
            rebuilt: true,
            empty_page: Some(self.contacts.len() == 0),
            select_row: pos,
            render_detail: true,
        }
    }

    fn find_again(cs: &Vec<Contact>, name: &String, primary: &Option<String>) -> (r: Option<usize>)
        ensures
            found_again(cs@, name@, *primary, r),
    {
        let p: Option<&str> = match primary {
            Some(s) => Some(s.as_str()),
            None => None,
        };
        let r = reselect(cs.as_slice(), name.as_str(), p);
        proof {
            assert forall|k: int| 0 <= k < cs@.len() implies same_primary(cs@[k].primary, p) == same_primary_as(
                cs@[k].primary,
                *primary,
            ) by {}
        }
        r
    }

    /// Applies an input; the state and effects are those [`contacts_next`]
    /// describes.
    pub fn handle(&mut self, e: ContactsPageInput) -> (fx: ContactsEffects)
        ensures
            contacts_next(*old(self), e, *final(self), fx),
    {
        match e {
            ContactsPageInput::SetLoading => {
                self.loading = true;
                ContactsEffects {
                    rebuilt: false,
                    empty_page: if self.contacts.len() == 0 {
                        Some(true)
                    } else {
                        None
                    },
                    select_row: None,
                    render_detail: false,
                }
            },
            ContactsPageInput::SetContacts(cs) => {
                let kept = match self.selected {
                    Some(i) => if i < self.contacts.len() {
                        Self::find_again(&cs, &self.contacts[i].name, &self.contacts[i].primary)
                    } else {
                        None
                    },
                    None => None,
                };
                self.contacts = cs;
                self.loading = false;
                self.selected = kept;
                let ghost mid = *self;
                let fx = self.rebuild();
                assert(rebuilt_from(mid, *self, fx));
                fx
            },
            ContactsPageInput::Query(q) => {
                self.query = to_lowercase(q.as_str());
                let ghost mid = *self;
                let fx = self.rebuild();
                assert(rebuilt_from(mid, *self, fx));
                fx
            },
            ContactsPageInput::SetSort(s) => {
                if s != self.sort {
                    self.sort = s;
                    self.rebuild()
                } else {
                    ContactsEffects { rebuilt: false, empty_page: None, select_row: None, render_detail: false }
                }
            },
            ContactsPageInput::RowSelected(row) => {
                if row < self.rows.len() && self.selected != Some(self.rows[row]) {
                    self.selected = Some(self.rows[row]);
                    ContactsEffects { rebuilt: false, empty_page: None, select_row: None, render_detail: true }
                } else {
                    ContactsEffects { rebuilt: false, empty_page: None, select_row: None, render_detail: false }
                }
            },
        }
    }
}

} // verus!
