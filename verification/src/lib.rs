//! Memory Engine core: verified text handling, prompt rendering and
//! memory-lifecycle decisions for a layered long-term memory.

pub mod text;
pub mod strset;
pub mod tokens;
pub mod error;
pub mod consolidator;
pub mod types;
pub mod status;
pub mod storage;
pub mod budget;
pub mod timelabel;
pub mod prompt;
pub mod forgetting;
pub mod sleep;
pub mod vector;
pub mod evidence;
pub mod records;
pub mod compression;
pub mod context;
pub mod preliminary;
pub mod reply;
pub mod ordering;
pub mod selection;
pub mod corestore;
pub mod corecontext;
pub mod recall;
pub mod fidelity;
pub mod vectorplan;
pub mod recallstats;
pub mod session;
pub mod reflection;
pub mod memorypass;
pub mod expansion;
pub mod contextrequest;
pub mod signals;
pub mod sleeprun;
pub mod package;
