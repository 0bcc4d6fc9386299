//! The database: a named, versioned set of declared stores.

use vstd::prelude::*;
use crate::store::{StoreState, StoreView};

verus! {

/// The fixed identifiers of the declared stores: one collection of
/// interactive-control images, one of background images, and one of
/// style text.
#[derive(Clone, Copy, PartialEq, Eq, Structural, Debug)]
pub enum StoreName {
    ControlImages,
    BackgroundImages,
    Styles,
}

/// A versioned connection to a named persistent store. A slot is `None`
/// until a migration step declares the store.
pub struct Database {
    pub name: String,
    pub version: u64,
    pub controls: Option<StoreState>,
    pub backgrounds: Option<StoreState>,
    pub styles: Option<StoreState>,
}

/// Mathematical image of a [`Database`].
#[verifier::ext_equal]
pub ghost struct DbView {
    pub name: Seq<char>,
    pub version: u64,
    pub controls: Option<StoreView>,
    pub backgrounds: Option<StoreView>,
    pub styles: Option<StoreView>,
}

/// The image of an optional store.
pub open spec fn slot_view(o: Option<StoreState>) -> Option<StoreView> {
    match o {
        Some(s) => Some(s@),
        None => None,
    }
}

impl View for Database {
    type V = DbView;

    open spec fn view(&self) -> DbView {
        DbView {
            name: self.name@,
            version: self.version,
            controls: slot_view(self.controls),
            backgrounds: slot_view(self.backgrounds),
            styles: slot_view(self.styles),
        }
    }
}

impl DbView {
    /// The slot of the store called `n`.
    pub open spec fn at(self, n: StoreName) -> Option<StoreView> {
        match n {
            StoreName::ControlImages => self.controls,
            StoreName::BackgroundImages => self.backgrounds,
            StoreName::Styles => self.styles,
        }
    }

    /// Whether the schema declares a store called `n`.
    pub open spec fn declares(self, n: StoreName) -> bool {
        self.at(n) is Some
    }

    /// The store called `n`, when it is declared.
    pub open spec fn store(self, n: StoreName) -> StoreView
        recommends
            self.declares(n),
    {
        self.at(n)->Some_0
    }

    /// The database with the store called `n` replaced by `s`.
    pub open spec fn with(self, n: StoreName, s: StoreView) -> DbView {
        match n {
            StoreName::ControlImages => DbView { controls: Some(s), ..self },
            StoreName::BackgroundImages => DbView { backgrounds: Some(s), ..self },
            StoreName::Styles => DbView { styles: Some(s), ..self },
        }
    }

    /// Every declared store satisfies its invariant.
    pub open spec fn wf(self) -> bool {
        forall|n: StoreName| (#[trigger] self.at(n)) matches Some(s) ==> s.wf()
    }

    /// `self` and `other` declare the same stores with the same
    /// uniqueness constraints: they have identical store/constraint sets.
    pub open spec fn same_schema(self, other: DbView) -> bool {
        forall|n: StoreName|
            #![auto]
            self.declares(n) == other.declares(n) && (self.declares(n)
                ==> self.store(n).unique == other.store(n).unique)
    }
}

impl Database {
    /// A fresh, empty database at schema version zero.
    pub fn fresh(name: String) -> (db: Database)
        ensures
            db@ == (DbView {
                name: name@,
                version: 0,
                controls: None,
                backgrounds: None,
                styles: None,
            }),
    {
        Database { name, version: 0, controls: None, backgrounds: None, styles: None }
    }

    /// Whether the schema declares a store called `n`.
    pub fn has_store(&self, n: StoreName) -> (r: bool)
        ensures
            r == self@.declares(n),
    {
        match n {
            StoreName::ControlImages => self.controls.is_some(),
            StoreName::BackgroundImages => self.backgrounds.is_some(),
            StoreName::Styles => self.styles.is_some(),
        }
    }

    /// A shared borrow of the store called `n`.
    pub fn store_ref(&self, n: StoreName) -> (r: &StoreState)
        requires
            self@.declares(n),
        ensures
            r@ == self@.store(n),
    {
        match n {
            StoreName::ControlImages => match &self.controls {
                Some(s) => s,
                None => vstd::pervasive::unreached(),
            },
            StoreName::BackgroundImages => match &self.backgrounds {
                Some(s) => s,
                None => vstd::pervasive::unreached(),
            },
            StoreName::Styles => match &self.styles {
                Some(s) => s,
                None => vstd::pervasive::unreached(),
            },
        }
    }

    /// Replace (or declare) the store called `n`.
    pub fn set_store(&mut self, n: StoreName, s: StoreState)
        ensures
            final(self)@ == old(self)@.with(n, s@),
    {
        match n {
            StoreName::ControlImages => {
                self.controls = Some(s);
            },
            StoreName::BackgroundImages => {
                self.backgrounds = Some(s);
            },
            StoreName::Styles => {
                self.styles = Some(s);
            },
        }
        proof {
            assert(self@ =~= old(self)@.with(n, s@));
        }
    }
}

} // verus!
