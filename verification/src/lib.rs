//! The logic of a dashboard for Git repositories, verified: parsing what
//! git prints, the analyses built on it (summary, contributors, activity,
//! branches, tags, files, technologies, blame), the split view of diffs,
//! and the decisions of the interface (sorting, searching, forms, notices).
pub mod text;
pub mod sort;
pub mod config;
pub mod i18n;
pub mod git;
pub mod contributors;
pub mod diff;
pub mod activity;
pub mod view;
pub mod ansi;
pub mod tree;
pub mod repos;
pub mod session;
pub mod search;
pub mod remote;
pub mod summary;
pub mod files;
pub mod blame;
pub mod tech;
pub mod messages;
pub mod analysis;
pub mod palette;
pub mod settings;
pub mod picker;
pub mod home;
