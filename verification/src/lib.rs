//! A small quest-tracking engine: a registry of visitable content, a table of
//! quest tasks with their status, and a dispatcher that turns page visits into
//! task transitions and player notifications.

mod assoc;
pub mod effect;
pub mod ledger;
pub mod packet;
pub mod plan;
pub mod registry;
pub mod status;
pub mod text;
