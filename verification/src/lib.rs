//! Verified core of the Investa trading workstation: validators, ledgers,
//! market-data aggregation and operational controls.
use vstd::prelude::*;

pub mod text;
pub mod aggregation;
pub mod controls;
pub mod readiness;
pub mod governance;
pub mod meeting;
pub mod futures;
pub mod platform;
pub mod kis;
pub mod dates;
pub mod market;
pub mod risk;
pub mod stream;
pub mod candles;
pub mod stocks;
pub mod ml;
pub mod official;
pub mod worker;
pub mod orders;
pub mod shards;
pub mod analysis;

verus! {

} // verus!
