//! Shared shaping of directory listings for OpenAI-style backends: a list of
//! model ids becomes a list of bots, each named after its id, with an avatar
//! taken from the first grapheme of the uppercased id.

use vstd::prelude::*;
use crate::protocol::entity::{
    first_grapheme_of, AvatarView, Bot, BotCapabilities, BotId, BotView, EntityAvatar,
};

verus! {

/// What uppercasing a string yields, as the standard library computes it
/// from the characters alone.
pub uninterp spec fn upper_of(s: Seq<char>) -> Seq<char>;

/// Relies on str::to_uppercase: the Unicode uppercase of the text, computed
/// from the characters alone; an empty text stays empty, and a non-empty
/// text stays non-empty (each character maps to at least one).
#[verifier::external_body]
fn uppercase(s: &str) -> (r: String)
    ensures
        r@ == upper_of(s@),
        s@.len() == 0 <==> r@.len() == 0,
{
    s.to_uppercase()
}

/// The bot a bare model id stands for: id and name are the id itself, the
/// avatar is the first grapheme of the uppercased id (`"?"` for an empty
/// id), and the capabilities are the caller's fixed set.
pub open spec fn model_bot(id: Seq<char>, capabilities: BotCapabilities) -> BotView {
    BotView {
        id: id,
        name: id,
        avatar: if upper_of(id).len() > 0 {
            AvatarView::Text(first_grapheme_of(upper_of(id)))
        } else {
            AvatarView::Text("?"@)
        },
        capabilities: capabilities,
    }
}

/// Shapes a list of bare model ids into bots, every one carrying the given
/// capability set. A non-empty id always gets a grapheme avatar, never the
/// `"?"` placeholder, since uppercasing keeps it non-empty.
pub fn bots_from_model_ids(ids: &Vec<String>, capabilities: &BotCapabilities) -> (r: Vec<Bot>)
    ensures
        r@.map_values(|b: Bot| b@) == ids@.map_values(|s: String| model_bot(s@, *capabilities)),
        forall|i: int|
            0 <= i < ids@.len() && ids@[i]@.len() > 0 ==> #[trigger] upper_of(ids@[i]@).len() > 0,
{
    let n = ids.len();
    let mut r: Vec<Bot> = Vec::new();
    let mut i: usize = 0;
    while i < n
        invariant
            i <= n,
            n == ids@.len(),
            r@.map_values(|b: Bot| b@) == ids@.take(i as int).map_values(
                |s: String| model_bot(s@, *capabilities),
            ),
            forall|p: int|
                0 <= p < i && ids@[p]@.len() > 0 ==> #[trigger] upper_of(ids@[p]@).len() > 0,
        decreases n - i,
    {
        let id = &ids[i];
        let upper = uppercase(id.as_str());
        let avatar = match EntityAvatar::from_first_grapheme(upper.as_str()) {
            Some(av) => av,
            None => EntityAvatar::Text(String::from_str("?")),
        };
        let bot = Bot {
            id: BotId::new(id.as_str()),
            name: id.clone(),
            avatar,
            capabilities: *capabilities,
        };
        proof {
            assert(bot@ == model_bot(ids@[i as int]@, *capabilities));
        }
        let ghost before = r@;
        r.push(bot);
        proof {
            before.lemma_push_map_commute(|b: Bot| b@, bot);
            ids@.lemma_map_take_succ(|s: String| model_bot(s@, *capabilities), i as int);
            assert(r@.map_values(|b: Bot| b@) =~= ids@.take(i + 1).map_values(
                |s: String| model_bot(s@, *capabilities),
            ));
        }
        i += 1;
    }
    proof {
        assert(ids@.take(n as int) =~= ids@);
    }
    r
}

} // verus!
