//! What a surface says it is showing.
use vstd::prelude::*;

verus! {

/// What a client tags its surface as.
#[derive(Clone, Copy, Debug, PartialEq, Eq, Structural)]
pub enum Type {
    /// The client never tagged it.
    Untagged,
    Photo,
    Video,
    Game,
}

/// Whether a surface wants the display in landscape. Video and games do, when
/// they fill the screen; a portrait photo would be turned the wrong way, and a
/// video in a window is no reason to turn the whole shell.
pub fn wants_landscape(content_type: Type, fullscreen: bool) -> (r: bool)
    ensures
        r == (fullscreen && (content_type == Type::Video || content_type == Type::Game)),
{
    fullscreen && match content_type {
        Type::Video => true,
        Type::Game => true,
        Type::Photo => false,
        Type::Untagged => false,
    }
}

/// Only what fills the screen turns it, and only a film or a game does.
pub proof fn law_only_films_and_games_turn_the_screen(content_type: Type, fullscreen: bool, r: bool)
    requires
        call_ensures(wants_landscape, (content_type, fullscreen), r),
    ensures
        r ==> fullscreen,
        r ==> content_type != Type::Photo && content_type != Type::Untagged,
        fullscreen && content_type == Type::Video ==> r,
        fullscreen && content_type == Type::Game ==> r,
{
}

} // verus!
