//! The tab document that clients store: groups of browser tabs.

use vstd::prelude::*;

verus! {

/// A request to store tab groups, with the session token that authorises it.
#[derive(Debug)]
pub struct Tabs {
    pub tabs: Vec<TabGroup>,
    pub token: String,
}

/// A named group of tabs.
#[derive(Debug)]
#[allow(non_snake_case)]
pub struct TabGroup {
    pub id: String,
    pub color: String,
    pub expand: bool,
    pub pinned: bool,
    pub tabs: Vec<Tab>,
    pub tags: Vec<String>,
    pub time: u64,
    pub title: String,
    pub titleEditing: Option<bool>,
    pub updatedAt: u64,
}

/// One browser tab.
#[derive(Debug)]
#[allow(non_snake_case)]
pub struct Tab {
    pub favIconUrl: String,
    pub muted: Option<bool>,
    pub pinned: bool,
    pub title: String,
    pub url: String,
}

} // verus!
