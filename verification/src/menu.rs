//! What the lines entered at the menus mean.

use vstd::prelude::*;
use crate::text::same_text;

verus! {

/// What can be chosen at the first menu.
#[derive(Clone, Copy, Debug, PartialEq, Eq)]
pub enum MainChoice {
    SignUp,
    LogIn,
    Exit,
    Invalid,
}

/// What a user who has logged in can choose.
#[derive(Clone, Copy, Debug, PartialEq, Eq)]
pub enum UserChoice {
    ManageProducts,
    ManageMeals,
    LogIntake,
    ViewLogs,
    GoBack,
    Invalid,
}

/// What can be chosen where products or meals are managed.
#[derive(Clone, Copy, Debug, PartialEq, Eq)]
pub enum ManageChoice {
    Add,
    View,
    GoBack,
    Invalid,
}

/// The number from 1 to 5 that `line` is the one digit of, or 0.
pub open spec fn menu_number(line: Seq<char>) -> u8 {
    if line == seq!['1'] {
        1
    } else if line == seq!['2'] {
        2
    } else if line == seq!['3'] {
        3
    } else if line == seq!['4'] {
        4
    } else if line == seq!['5'] {
        5
    } else {
        0
    }
}

/// What `line` chooses at the first menu.
pub open spec fn main_choice_of(line: Seq<char>) -> MainChoice {
    match menu_number(line) {
        1 => MainChoice::SignUp,
        2 => MainChoice::LogIn,
        3 => MainChoice::Exit,
        _ => MainChoice::Invalid,
    }
}

/// What `line` chooses at the menu of a user.
pub open spec fn user_choice_of(line: Seq<char>) -> UserChoice {
    match menu_number(line) {
        1 => UserChoice::ManageProducts,
        2 => UserChoice::ManageMeals,
        3 => UserChoice::LogIntake,
        4 => UserChoice::ViewLogs,
        5 => UserChoice::GoBack,
        _ => UserChoice::Invalid,
    }
}

/// What `line` chooses where products or meals are managed.
pub open spec fn manage_choice_of(line: Seq<char>) -> ManageChoice {
    match menu_number(line) {
        1 => ManageChoice::Add,
        2 => ManageChoice::View,
        3 => ManageChoice::GoBack,
        _ => ManageChoice::Invalid,
    }
}

/// The number from 1 to 5 that `line` is the one digit of, or 0.
pub fn read_menu_number(line: &str) -> (n: u8)
    ensures
        n == menu_number(line@),
{
    proof {
        reveal_strlit("1");
        reveal_strlit("2");
        reveal_strlit("3");
        reveal_strlit("4");
        reveal_strlit("5");
        assert("1"@ =~= seq!['1']);
        assert("2"@ =~= seq!['2']);
        assert("3"@ =~= seq!['3']);
        assert("4"@ =~= seq!['4']);
        assert("5"@ =~= seq!['5']);
    }
    if same_text(line, "1") {
        1
    } else if same_text(line, "2") {
        2
    } else if same_text(line, "3") {
        3
    } else if same_text(line, "4") {
        4
    } else if same_text(line, "5") {
        5
    } else {
        0
    }
}

/// What `line` chooses at the first menu.
pub fn main_choice(line: &str) -> (choice: MainChoice)
    ensures
        choice == main_choice_of(line@),
{
    match read_menu_number(line) {
        1 => MainChoice::SignUp,
        2 => MainChoice::LogIn,
        3 => MainChoice::Exit,
        _ => MainChoice::Invalid,
    }
}

/// What `line` chooses at the menu of a user.
pub fn user_choice(line: &str) -> (choice: UserChoice)
    ensures
        choice == user_choice_of(line@),
{
    match read_menu_number(line) {
        1 => UserChoice::ManageProducts,
        2 => UserChoice::ManageMeals,
        3 => UserChoice::LogIntake,
        4 => UserChoice::ViewLogs,
        5 => UserChoice::GoBack,
        _ => UserChoice::Invalid,
    }
}

/// What `line` chooses where products or meals are managed.
pub fn manage_choice(line: &str) -> (choice: ManageChoice)
    ensures
        choice == manage_choice_of(line@),
{
    match read_menu_number(line) {
        1 => ManageChoice::Add,
        2 => ManageChoice::View,
        3 => ManageChoice::GoBack,
        _ => ManageChoice::Invalid,
    }
}

} // verus!
