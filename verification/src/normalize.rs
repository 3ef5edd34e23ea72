//! Turning a collected observation into a board item.
use vstd::prelude::*;
use crate::links::{canonical_url, canonicalize_url};
use crate::model::{BoardConfig, ItemDraft, ObservationDraft, texts, text_or_empty};
use crate::scoring::{category_for, infer_category};
use crate::text::{
    lemma_title_text_plain, strip_tags, trim_ws, no_angle_brackets, owned, public_text, public_text_of, title_text,
    title_text_of,
};

verus! {

/// Whether `item` is what `observation` becomes on `board`, seen at time
/// `now`: its link canonical, its title stripped of markup tags and
/// trimmed, its description made public text, its category as reported or else inferred, first seen when
/// published or else now, last seen now.
pub open spec fn is_normalized(item: ItemDraft, board: BoardConfig, observation: ObservationDraft, now: Seq<char>) -> bool {
    &&& item.board_id@ == board.id@
    &&& item.canonical_url@ == canonical_url(observation.url@)
    &&& item.title@ == title_text_of(observation.title@)
    &&& match observation.description {
        Some(d) => item.description matches Some(rd) && rd@ == public_text_of(d@),
        None => item.description is None,
    }
    &&& item.category@ == match observation.category {
        Some(c) => c@,
        None => category_for(
            texts(board.categories@),
            observation.title@,
            text_or_empty(observation.description),
        ),
    }
    &&& item.first_seen_at@ == match observation.published_at {
        Some(p) => p@,
        None => now,
    }
    &&& item.last_seen_at@ == now
}

/// The item that `observation` becomes on `board`, seen at time `now` (see
/// [`is_normalized`]).
pub fn normalize_observation(board: &BoardConfig, observation: &ObservationDraft, now: &str) -> (r: ItemDraft)
    ensures
        is_normalized(r, *board, *observation, now@),
        no_angle_brackets(r.title@),
{
    proof {
        lemma_title_text_plain(observation.title@);
    }
    let canonical_url = canonicalize_url(observation.url.as_str());
    let description = match &observation.description {
        Some(d) => Some(public_text(d.as_str())),
        None => None,
    };
    let category = match &observation.category {
        Some(c) => c.clone(),
        None => {
            let d: &str = match &observation.description {
                Some(d) => d.as_str(),
                None => "",
            };
            proof {
                reveal_strlit("");
                assert(d@ == text_or_empty(observation.description));
            }
            infer_category(board, observation.title.as_str(), d)
        },
    };
    let first_seen_at = match &observation.published_at {
        Some(p) => p.clone(),
        None => owned(now),
    };
    ItemDraft {
        board_id: board.id.clone(),
        canonical_url,
        title: title_text(observation.title.as_str()),
        description,
        category,
        first_seen_at,
        last_seen_at: owned(now),
    }
}

/// What an observation becomes on a board: the item belongs to the board;
/// its link is the canonical link of the observation's URL; its title is
/// the observation's title with tags removed and surrounding whitespace
/// trimmed; its description is the public text of the observation's; its
/// category is the one reported, else the one inferred; it was first seen
/// when published, else now, and last seen now.
pub proof fn lemma_normalized_fields(item: ItemDraft, board: BoardConfig, observation: ObservationDraft, now: Seq<char>)
    requires
        is_normalized(item, board, observation, now),
    ensures
        item.board_id@ == board.id@,
        item.canonical_url@ == canonical_url(observation.url@),
        item.title@ == trim_ws(strip_tags(observation.title@)),
        observation.description matches Some(d) ==> (item.description matches Some(rd)
            && rd@ == public_text_of(d@)),
        observation.description is None ==> item.description is None,
        observation.category matches Some(c) ==> item.category@ == c@,
        observation.category is None ==> item.category@ == category_for(
            texts(board.categories@),
            observation.title@,
            text_or_empty(observation.description),
        ),
        observation.published_at matches Some(p) ==> item.first_seen_at@ == p@,
        observation.published_at is None ==> item.first_seen_at@ == now,
        item.last_seen_at@ == now,
{
}

} // verus!
