pub mod text;
pub mod net;
pub mod address_numbers;
pub mod dto;
pub mod geo;
pub mod error;
pub mod application;
pub mod web;
pub mod forms;
pub mod timing;
pub mod pings;
pub mod client;
pub mod pages;
pub mod config;
pub mod laws;
pub mod region;
