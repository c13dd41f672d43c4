//! Cafeteria menus read from a school's published menu page: dishes per day,
//! dates without a year resolved against the present moment, and the order and
//! de-duplication rules that turn the page's panels into a list of menus.

pub mod calendar;
pub mod heading;
pub mod dish;
pub mod menu;
pub mod catalog;
pub mod page;
pub mod search;
pub mod quizlet;
