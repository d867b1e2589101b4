//! Settings of the store: the retention strategy and the region allow-list.

use vstd::prelude::*;

verus! {

/// Which rule decides the snapshots to keep.
#[derive(Debug, Clone, Copy, PartialEq, Eq, Structural)]
pub enum RotateType {
    /// Keep a fixed number of the newest snapshots.
    HistoryCount,
    /// Keep the snapshots younger than a number of days.
    StoredTime,
    /// Keep the newest snapshots that fit in a number of megabytes.
    TotalSize,
    /// Names no rule: nothing is pruned.
    Reserved,
}

/// The active retention rule, with its bound.
#[derive(Debug, Clone, Copy, PartialEq, Eq, Structural)]
pub enum RetentionPolicy {
    /// Keep at most this many snapshots.
    Count(u32),
    /// Keep the snapshots taken within this many days.
    Age(u32),
    /// Keep the newest snapshots whose sizes add up to at most this many bytes.
    Size(u64),
}

#[derive(Debug, Clone)]
pub struct Settings {
    pub rotate_type: RotateType,
    pub rotate_count: u32,
    pub rotate_time: u32,
    pub rotate_size: u32,
    pub enable_region_block: bool,
    pub white_region_code_list: Vec<String>,
}

/// The bytes in `mb` megabytes.
pub open spec fn megabytes(mb: u32) -> u64 {
    (mb * 1048576) as u64
}

/// `region` is, character for character, one of `codes`.
pub open spec fn allow_listed(codes: Seq<String>, region: Seq<char>) -> bool {
    exists|i: int| 0 <= i < codes.len() && (#[trigger] codes[i])@ == region
}

impl Settings {
    /// The settings used when none are configured: keep the last 100
    /// snapshots, and admit only region `SG`.
    pub fn new() -> (r: Settings)
        ensures
            r.rotate_type == RotateType::HistoryCount,
            r.rotate_count == 100,
            r.rotate_time == 30,
            r.rotate_size == 200,
            r.enable_region_block,
            r.white_region_code_list@.len() == 1,
            r.white_region_code_list@[0]@ == seq!['S', 'G'],
    {
        let sg = String::from_str("SG");
        proof {
            reveal_strlit("SG");
        }
        let r = Settings {
            rotate_type: RotateType::HistoryCount,
            rotate_count: 100,
            rotate_time: 30,
            rotate_size: 200,
            enable_region_block: true,
            white_region_code_list: vec![sg],
        };
        assert(r.white_region_code_list@[0]@ =~= seq!['S', 'G']);
        r
    }

    /// Whether `region` is on the allow-list (exact, case-sensitive match).
    pub fn contains_region(&self, region: &str) -> (r: bool)
        ensures
            r == allow_listed(self.white_region_code_list@, region@),
    {
        let target = region.to_owned();
        let n = self.white_region_code_list.len();
        for i in 0..n
            invariant
                n == self.white_region_code_list@.len(),
                target@ == region@,
                forall|k: int| 0 <= k < i ==> (#[trigger] self.white_region_code_list@[k])@ != region@,
        {
            if self.white_region_code_list[i] == target {
                return true;
            }
        }
        false
    }

    /// The retention rule that these settings select; `None` for
    /// [`RotateType::Reserved`]. The size bound is given in megabytes and
    /// returned in bytes.
    pub fn retention_policy(&self) -> (r: Option<RetentionPolicy>)
        ensures
            r == match self.rotate_type {
                RotateType::HistoryCount => Some(RetentionPolicy::Count(self.rotate_count)),
                RotateType::StoredTime => Some(RetentionPolicy::Age(self.rotate_time)),
                RotateType::TotalSize => Some(RetentionPolicy::Size(megabytes(self.rotate_size))),
                RotateType::Reserved => None::<RetentionPolicy>,
            },
    {
        match self.rotate_type {
            RotateType::HistoryCount => Some(RetentionPolicy::Count(self.rotate_count)),
            RotateType::StoredTime => Some(RetentionPolicy::Age(self.rotate_time)),
            RotateType::TotalSize => Some(RetentionPolicy::Size((self.rotate_size as u64) * 1048576)),
            RotateType::Reserved => None,
        }
    }
}

pub struct Config {
    pub settings: Settings,
}

impl Config {
    pub fn build(settings: Settings) -> (r: Config)
        ensures
            r.settings == settings,
    {
        Config { settings }
    }

    /// The configuration in force when no configuration has been loaded.
    pub fn new() -> (r: Config)
        ensures
            r.settings.rotate_type == RotateType::HistoryCount,
            r.settings.rotate_count == 100,
            r.settings.rotate_time == 30,
            r.settings.rotate_size == 200,
            r.settings.enable_region_block,
            r.settings.white_region_code_list@.len() == 1,
            r.settings.white_region_code_list@[0]@ == seq!['S', 'G'],
    {
        Config::build(Settings::new())
    }
}

} // verus!
