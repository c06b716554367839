//! The plain parts of the Gleam view description: shell mode and icon names.

use vstd::prelude::*;
use crate::theme::Mode;
use crate::icons::Icon;

verus! {

/// Shell mode of a Gleam app.
#[derive(Debug, Clone, Copy, PartialEq, Eq, Structural)]
pub enum ThemeMode {
    Dark,
    Light,
}

impl Default for ThemeMode {
    fn default() -> (m: ThemeMode)
        ensures
            m == ThemeMode::Dark,
    {
        ThemeMode::Dark
    }
}

/// The appearance a shell mode asks for.
pub open spec fn mode_of(m: ThemeMode) -> Mode {
    match m {
        ThemeMode::Dark => Mode::Dark,
        ThemeMode::Light => Mode::Light,
    }
}

impl ThemeMode {
    pub fn mode(self) -> (m: Mode)
        ensures
            m == mode_of(self),
    {
        match self {
            ThemeMode::Dark => Mode::Dark,
            ThemeMode::Light => Mode::Light,
        }
    }
}

/// Named icon of a Gleam view, one for each [`Icon`].
#[derive(Debug, Clone, Copy, PartialEq, Eq, Structural)]
pub enum IconName {
    ThumbsUp,
    ThumbsDown,
    Heart,
    Laugh,
    Surprised,
    Frown,
    Plus,
    Copy,
}

/// The icon an icon name stands for.
pub open spec fn icon_of(n: IconName) -> Icon {
    match n {
        IconName::ThumbsUp => Icon::ThumbsUp,
        IconName::ThumbsDown => Icon::ThumbsDown,
        IconName::Heart => Icon::Heart,
        IconName::Laugh => Icon::Laugh,
        IconName::Surprised => Icon::Surprised,
        IconName::Frown => Icon::Frown,
        IconName::Plus => Icon::Plus,
        IconName::Copy => Icon::Copy,
    }
}

impl IconName {
    pub fn to_icon(self) -> (i: Icon)
        ensures
            i == icon_of(self),
    {
        match self {
            IconName::ThumbsUp => Icon::ThumbsUp,
            IconName::ThumbsDown => Icon::ThumbsDown,
            IconName::Heart => Icon::Heart,
            IconName::Laugh => Icon::Laugh,
            IconName::Surprised => Icon::Surprised,
            IconName::Frown => Icon::Frown,
            IconName::Plus => Icon::Plus,
            IconName::Copy => Icon::Copy,
        }
    }
}

/// Every icon has exactly one name: naming is a one-to-one correspondence.
pub proof fn lemma_icon_names_one_to_one(a: IconName, b: IconName, i: Icon)
    ensures
        icon_of(a) == icon_of(b) ==> a == b,
        exists|n: IconName| icon_of(n) == i,
{
    match i {
        Icon::ThumbsUp => assert(icon_of(IconName::ThumbsUp) == i),
        Icon::ThumbsDown => assert(icon_of(IconName::ThumbsDown) == i),
        Icon::Heart => assert(icon_of(IconName::Heart) == i),
        Icon::Laugh => assert(icon_of(IconName::Laugh) == i),
        Icon::Surprised => assert(icon_of(IconName::Surprised) == i),
        Icon::Frown => assert(icon_of(IconName::Frown) == i),
        Icon::Plus => assert(icon_of(IconName::Plus) == i),
        Icon::Copy => assert(icon_of(IconName::Copy) == i),
    }
}

} // verus!
