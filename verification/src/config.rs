use vstd::prelude::*;

verus! {

/// The domain of valid table identifiers: `table_range.0` is the first valid
/// table, `table_range.1` the last. Built once at startup and immutable
/// afterwards.
#[derive(Debug, Clone, Copy)]
pub struct Config {
    pub table_range: (u32, u32),
}

/// The ways a table range can be rejected at construction.
#[derive(Debug, Clone, PartialEq, Eq)]
pub enum ConfigError {
    InvalidStart,
    InvalidRange,
}

impl Config {
    /// A config is well formed when the range starts at 1 or later and does
    /// not end before it starts.
    pub open spec fn wf(self) -> bool {
        1 <= self.table_range.0 && self.table_range.0 <= self.table_range.1
    }

    /// Whether `table_id` lies inside the configured range.
    pub open spec fn in_range(self, table_id: u32) -> bool {
        self.table_range.0 <= table_id <= self.table_range.1
    }

    pub fn new(table_range: (u32, u32)) -> (r: Result<Config, ConfigError>)
        ensures
            table_range.0 == 0 ==> r == Err::<Config, ConfigError>(ConfigError::InvalidStart),
            table_range.0 != 0 && table_range.0 > table_range.1 ==> r == Err::<Config, ConfigError>(
                ConfigError::InvalidRange,
            ),
            1 <= table_range.0 <= table_range.1 ==> (r == Ok::<Config, ConfigError>(
                Config { table_range },
            ) && r.unwrap().wf()),
    {
        if table_range.0 == 0 {
            return Err(ConfigError::InvalidStart);
        }
        if table_range.0 > table_range.1 {
            return Err(ConfigError::InvalidRange);
        }
        Ok(Config { table_range })
    }
}

} // verus!
