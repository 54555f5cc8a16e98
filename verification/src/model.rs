//! The catalog data model: one `Restaurant` per location, each carrying its
//! dated menus, and the error kinds of the pipeline.

use vstd::prelude::*;

verus! {

/// Student and normal price of one dish, as free-text strings.
#[derive(Debug, Clone, PartialEq, Eq)]
pub struct PriceOptions {
    pub student: String,
    pub normal: String,
}

/// Price block of one dish: a label (unused by rendering) and the pair.
#[derive(Debug, Clone, PartialEq, Eq)]
pub struct Price {
    pub name: String,
    pub value: PriceOptions,
}

/// One dish row, or an opening-hours pseudo-row.
#[derive(Debug, Clone, PartialEq, Eq)]
pub struct Menu {
    pub price: Price,
    pub name: String,
}

/// One day's menu: its dishes and a free-text date label.
#[derive(Debug, Clone, PartialEq, Eq)]
pub struct MenuList {
    pub data: Vec<Menu>,
    pub date: String,
}

/// A location's menu block: name, identifiers and the dated menus.
#[derive(Debug, Clone, PartialEq, Eq)]
pub struct MenuData {
    pub name: String,
    pub id: i32,
    pub areacode: i32,
    pub menus: Vec<MenuList>,
}

/// One location of the catalog.
#[derive(Debug, Clone, PartialEq, Eq)]
pub struct Restaurant {
    pub id: i32,
    pub title: String,
    pub slug: String,
    pub permalink: String,
    pub address: String,
    pub menu_data: MenuData,
}

/// The error kinds of the pipeline, kept distinguishable for the caller.
#[derive(Debug, Clone, Copy, PartialEq, Eq, Structural)]
pub enum MenuError {
    /// The catalog could not be decoded (or, at the caller, fetched).
    Fetch,
    /// No location slug contains the requested key.
    LocationNotFound,
    /// No menu entry matches the requested date label.
    MenuNotFound,
}

#[verifier::ext_equal]
pub ghost struct PriceOptionsV {
    pub student: Seq<char>,
    pub normal: Seq<char>,
}

#[verifier::ext_equal]
pub ghost struct PriceV {
    pub name: Seq<char>,
    pub value: PriceOptionsV,
}

#[verifier::ext_equal]
pub ghost struct MenuV {
    pub price: PriceV,
    pub name: Seq<char>,
}

#[verifier::ext_equal]
pub ghost struct MenuListV {
    pub data: Seq<MenuV>,
    pub date: Seq<char>,
}

#[verifier::ext_equal]
pub ghost struct MenuDataV {
    pub name: Seq<char>,
    pub id: int,
    pub areacode: int,
    pub menus: Seq<MenuListV>,
}

#[verifier::ext_equal]
pub ghost struct RestaurantV {
    pub id: int,
    pub title: Seq<char>,
    pub slug: Seq<char>,
    pub permalink: Seq<char>,
    pub address: Seq<char>,
    pub menu_data: MenuDataV,
}

impl View for PriceOptions {
    type V = PriceOptionsV;

    open spec fn view(&self) -> PriceOptionsV {
        PriceOptionsV { student: self.student@, normal: self.normal@ }
    }
}

impl DeepView for PriceOptions {
    type V = PriceOptionsV;

    open spec fn deep_view(&self) -> PriceOptionsV {
        self@
    }
}

impl View for Price {
    type V = PriceV;

    open spec fn view(&self) -> PriceV {
        PriceV { name: self.name@, value: self.value@ }
    }
}

impl DeepView for Price {
    type V = PriceV;

    open spec fn deep_view(&self) -> PriceV {
        self@
    }
}

impl View for Menu {
    type V = MenuV;

    open spec fn view(&self) -> MenuV {
        MenuV { price: self.price@, name: self.name@ }
    }
}

impl DeepView for Menu {
    type V = MenuV;

    open spec fn deep_view(&self) -> MenuV {
        self@
    }
}

impl View for MenuList {
    type V = MenuListV;

    open spec fn view(&self) -> MenuListV {
        MenuListV { data: self.data.deep_view(), date: self.date@ }
    }
}

impl DeepView for MenuList {
    type V = MenuListV;

    open spec fn deep_view(&self) -> MenuListV {
        self@
    }
}

impl View for MenuData {
    type V = MenuDataV;

    open spec fn view(&self) -> MenuDataV {
        MenuDataV {
            name: self.name@,
            id: self.id as int,
            areacode: self.areacode as int,
            menus: self.menus.deep_view(),
        }
    }
}

impl DeepView for MenuData {
    type V = MenuDataV;

    open spec fn deep_view(&self) -> MenuDataV {
        self@
    }
}

impl View for Restaurant {
    type V = RestaurantV;

    open spec fn view(&self) -> RestaurantV {
        RestaurantV {
            id: self.id as int,
            title: self.title@,
            slug: self.slug@,
            permalink: self.permalink@,
            address: self.address@,
            menu_data: self.menu_data@,
        }
    }
}

impl DeepView for Restaurant {
    type V = RestaurantV;

    open spec fn deep_view(&self) -> RestaurantV {
        self@
    }
}

} // verus!
