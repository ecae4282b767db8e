pub mod text;
pub mod models;
pub mod reach;
pub mod condense;
pub mod order;
pub mod names;
pub mod dependency_graph;
pub mod layout;
pub mod pacman;
pub mod cargo;
pub mod unit_file;
pub mod paths;
pub mod locations;
pub mod desktop;
pub mod capabilities;
pub mod records;
pub mod repo;
pub mod executables;
pub mod opt;
pub mod presentation;
pub mod tree;
pub mod inspector;
pub mod packages;
pub mod services;
pub mod table;
pub mod search;
