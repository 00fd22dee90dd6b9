//! User-facing text that the core itself assembles.
use vstd::prelude::*;

verus! {

/// The usage text, with the bot's username spliced in where a recipient
/// would type it.
pub open spec fn spec_help_text(bot_username: Seq<char>) -> Seq<char> {
    "Type /start to prepare an advanced spoiler with a custom title.\n\nYou can type quick spoilers by using @"@
        + bot_username + " in inline mode:\n@"@ + bot_username
        + " your spoiler message\u{2026}\n\nCustom titles can also be used from inline mode as follows:\n@"@
        + bot_username
        + " title for the spoiler:::contents of the spoiler\nNote that the title will be immediately visible!"@
}

/// Builds the usage text around the bot's username.
pub fn help_text(bot_username: String) -> (r: String)
    ensures
        r@ == spec_help_text(bot_username@),
{
    let mut r = String::from_str(
        "Type /start to prepare an advanced spoiler with a custom title.\n\nYou can type quick spoilers by using @",
    );
    r.append(bot_username.as_str());
    r.append(" in inline mode:\n@");
    r.append(bot_username.as_str());
    r.append(
        " your spoiler message\u{2026}\n\nCustom titles can also be used from inline mode as follows:\n@",
    );
    r.append(bot_username.as_str());
    r.append(
        " title for the spoiler:::contents of the spoiler\nNote that the title will be immediately visible!",
    );
    proof {
        assert(r@ =~= spec_help_text(bot_username@));
    }
    r
}

} // verus!
