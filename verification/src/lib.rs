//! A download manager's core, verified: tasks and their queue, cookies and
//! accounts, the scheduler, the addon side's records and objects, the
//! decisions of running a task, and what the window shows.
use vstd::prelude::*;

pub mod task;
pub mod text;
pub mod clock;
pub mod cookie;
pub mod queue;
pub mod maps;
pub mod scheduler;
pub mod crypto;
pub mod web;
pub mod account;
pub mod display;
pub mod pairs;
pub mod addon;
pub mod runner;
pub mod ui;
pub mod window;
pub mod cron;
