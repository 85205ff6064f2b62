//! The social links a player has set on the game server.
use vstd::prelude::*;

verus! {

/// The social links of a player; each is absent where the player set none.
pub struct Links {
    pub twitter: Option<String>,
    pub youtube: Option<String>,
    pub instagram: Option<String>,
    pub twitch: Option<String>,
    pub discord: Option<String>,
    pub forums: Option<String>,
}

/// Why the links of a player could not be had.
pub enum SocialsError {
    /// The service refused, with its stated cause.
    Api(String),
    /// The service refused without a cause.
    Unknown,
}

/// Why an account cannot be linked to a chat user.
pub enum LinkCheckError {
    /// The player has set no chat account in their links.
    NoDiscordLink,
}

impl Links {
    /// No links at all.
    pub fn empty() -> (r: Links)
        ensures
            r.twitter.is_none() && r.youtube.is_none() && r.instagram.is_none(),
            r.twitch.is_none() && r.discord.is_none() && r.forums.is_none(),
    {
        Links { twitter: None, youtube: None, instagram: None, twitch: None, discord: None, forums: None }
    }

    /// Whether the chat account set in the links is `discord_user`; an error
    /// where none is set.
    pub fn is_linked_to(&self, discord_user: &String) -> (r: Result<bool, LinkCheckError>)
        ensures
            match self.discord {
                Some(d) => r == Ok::<bool, LinkCheckError>(d@ == discord_user@),
                None => r is Err,
            },
    {
        match &self.discord {
            Some(d) => Ok(*d == *discord_user),
            None => Err(LinkCheckError::NoDiscordLink),
        }
    }
}

/// The links of a player from the service's answer: its cause as an error
/// where it did not succeed; otherwise the links it holds, or none.
pub fn socials_from_response(success: bool, cause: Option<String>, links: Option<Links>) -> (r: Result<Links, SocialsError>)
    ensures
        !success ==> match cause {
            Some(c) => r matches Err(SocialsError::Api(e)) && e@ == c@,
            None => r matches Err(SocialsError::Unknown),
        },
        success ==> match links {
            Some(l) => r == Ok::<Links, SocialsError>(l),
            None => r matches Ok(l) && l.discord.is_none() && l.twitter.is_none() && l.youtube.is_none()
                && l.instagram.is_none() && l.twitch.is_none() && l.forums.is_none(),
        },
{
    if !success {
        return match cause {
            Some(c) => Err(SocialsError::Api(c)),
            None => Err(SocialsError::Unknown),
        };
    }
    match links {
        Some(l) => Ok(l),
        None => Ok(Links::empty()),
    }
}

} // verus!
