//! A conversation memory library: deterministic planning of episodes, context
//! windows, budgets and evaluation runs, with its behaviour stated in contracts.

pub mod allocation;
pub mod answers;
pub mod associations;
pub mod attribution;
pub mod boundary;
pub mod budget;
pub mod channels;
pub mod clauses;
pub mod clock;
pub mod commands;
pub mod config;
pub mod consolidate;
pub mod context;
pub mod control;
pub mod corpus;
pub mod dataset;
pub mod digest;
pub mod display;
pub mod edges;
pub mod encoding;
pub mod episode;
pub mod evaluation;
pub mod evidence;
pub mod facts;
pub mod graph;
pub mod json;
pub mod knowledge;
pub mod ledger;
pub mod links;
pub mod locomo;
pub mod lookup;
pub mod merge;
pub mod model;
pub mod moment;
pub mod number;
pub mod order;
pub mod refresh;
pub mod relations;
pub mod replanning;
pub mod request;
pub mod runtime;
pub mod score;
pub mod search;
pub mod snapshot;
pub mod stored;
pub mod synthetic;
pub mod syncing;
pub mod text;
pub mod turn;
pub mod versions;
pub mod walk;
pub mod windows;
pub mod workspace;
