//! Template context types handed to the page-rendering layer, and the
//! selection of a user page's tab from query items.

use vstd::prelude::*;
use crate::search::{first_where, lemma_first_where_found, lemma_first_where_none};
use crate::user::AuthUser;

verus! {

/// Contents of a one-shot flash message.
pub struct FlashContext {
    pub name: String,
    pub msg: String,
}

/// The main template context: the authenticated identity if a login
/// session exists, an optional flash message, and the page's own content.
pub struct Context<T> {
    pub auth_user: Option<AuthUser>,
    pub flash: Option<FlashContext>,
    pub content: Option<T>,
}

impl<T> Default for Context<T> {
    fn default() -> (r: Self)
        ensures
            r.auth_user is None,
            r.flash is None,
            r.content is None,
    {
        Context { auth_user: None, flash: None, content: None }
    }
}

impl Context<()> {
    /// The empty context, with the content type fixed to unit.
    pub fn empty() -> (r: Context<()>)
        ensures
            r.auth_user is None,
            r.flash is None,
            r.content is None,
    {
        Context { auth_user: None, flash: None, content: None }
    }
}

/// Which tab of a user's page is shown.
#[derive(Clone, Copy, PartialEq, Eq, Structural, Debug)]
pub enum UserpageTab {
    Overview,
    Baskets,
    Stars,
}

/// The view of a key-value query item list.
pub open spec fn items_view(items: Seq<(String, String)>) -> Seq<(Seq<char>, Seq<char>)> {
    items.map_values(|p: (String, String)| (p.0@, p.1@))
}

/// Which tab a query selects: the first item keyed `tab` decides, with
/// unknown values (and no `tab` item at all) falling back to the overview.
pub open spec fn spec_tab(items: Seq<(Seq<char>, Seq<char>)>) -> UserpageTab {
    match first_where(items, |p: (Seq<char>, Seq<char>)| p.0 == "tab"@) {
        Some(p) => if p.1 == "baskets"@ {
            UserpageTab::Baskets
        } else if p.1 == "stars"@ {
            UserpageTab::Stars
        } else {
            UserpageTab::Overview
        },
        None => UserpageTab::Overview,
    }
}

impl UserpageTab {
    /// Selects the tab from the form items of the request's query.
    pub fn from_form_items(form_items: &Vec<(String, String)>) -> (r: Result<UserpageTab, ()>)
        ensures
            r == Ok::<UserpageTab, ()>(spec_tab(items_view(form_items@))),
    {
        let ghost iv = items_view(form_items@);
        let n = form_items.len();
        let mut i: usize = 0;
        while i < n
            invariant
                i <= n,
                n == form_items@.len(),
                iv == items_view(form_items@),
                forall|j: int| 0 <= j < i ==> (#[trigger] iv[j]).0 != "tab"@,
            decreases n - i,
        {
            if crate::collaborators::str_eq(form_items[i].0.as_str(), "tab") {
                proof {
                    assert(iv[i as int] == (form_items@[i as int].0@, form_items@[i as int].1@));
                    lemma_first_where_found(
                        iv,
                        |p: (Seq<char>, Seq<char>)| p.0 == "tab"@,
                        i as int,
                    );
                }
                let value = form_items[i].1.as_str();
                if crate::collaborators::str_eq(value, "baskets") {
                    return Ok(UserpageTab::Baskets);
                }
                if crate::collaborators::str_eq(value, "stars") {
                    return Ok(UserpageTab::Stars);
                }
                return Ok(UserpageTab::Overview);
            }
            i = i + 1;
        }
        proof {
            lemma_first_where_none(iv, |p: (Seq<char>, Seq<char>)| p.0 == "tab"@);
        }
        Ok(UserpageTab::Overview)
    }
}

} // verus!
