//! The list of peers as the user sees it.
use vstd::prelude::*;
use vstd::string::StringExecFns;

use crate::fields::{
    first_of, members_are_read_by_name, names, peer_items, peers_of, said, string_field,
    text_member, trees_behind,
};
use crate::json::{member, Json, JsonView};
use crate::text::trimmed;

verus! {

/// One line for a peer: its URL and the time of the last synchronization.
pub open spec fn peer_line(peer: JsonView) -> Seq<char> {
    (match text_member(peer, seq!["url"@, "base_url"@, "peer_url"@]) {
        Some(url) => url,
        None => "<unknown>"@,
    }) + "\t"@ + (match text_member(peer, seq!["last_sync_at"@, "lastSyncAt"@]) {
        Some(time) => time,
        None => "<never>"@,
    })
}

fn format_peer(peer: &Json) -> (r: String)
    ensures
        r@ == peer_line(peer@),
{
    let url_keys = ["url", "base_url", "peer_url"];
    assert(names(url_keys@) =~= seq!["url"@, "base_url"@, "peer_url"@]);
    let url = match string_field(peer, &url_keys) {
        Some(url) => url,
        None => "<unknown>".to_owned(),
    };
    let time_keys = ["last_sync_at", "lastSyncAt"];
    assert(names(time_keys@) =~= seq!["last_sync_at"@, "lastSyncAt"@]);
    let time = match string_field(peer, &time_keys) {
        Some(time) => time,
        None => "<never>".to_owned(),
    };
    url.concat("\t").concat(time.as_str())
}

/// One line for each peer, in the order of the answer.
pub fn format_peers(value: &Json) -> (r: Vec<String>)
    ensures
        r@.len() == peers_of(value@).len(),
        forall|i: int| 0 <= i < r@.len() ==> (#[trigger] r@[i])@ == peer_line(peers_of(value@)[i]),
        forall|i: int|
            #![trigger r@[i]]
            0 <= i < r@.len() ==> ({
                let peer = peers_of(value@)[i];
                r@[i]@ == said(first_of(peer, "url"@, "base_url"@, "peer_url"@), "<unknown>"@)
                    + "\t"@ + said(
                    first_of(peer, "last_sync_at"@, "lastSyncAt"@, "lastSyncAt"@),
                    "<never>"@,
                )
            }),
{
    let peers = peer_items(value);
    let mut lines: Vec<String> = Vec::new();
    for i in 0..peers.len()
        invariant
            trees_behind(peers@) == peers_of(value@),
            lines@.len() == i,
            forall|j: int|
                0 <= j < i ==> (#[trigger] lines@[j])@ == peer_line(peers_of(value@)[j]),
    {
        assert(trees_behind(peers@)[i as int] == peers@[i as int]@);
        lines.push(format_peer(peers[i]));
    }
    proof {
        assert forall|i: int|
            #![trigger lines@[i]]
            0 <= i < lines@.len() implies ({
            let peer = peers_of(value@)[i];
            lines@[i]@ == said(first_of(peer, "url"@, "base_url"@, "peer_url"@), "<unknown>"@)
                + "\t"@ + said(
                first_of(peer, "last_sync_at"@, "lastSyncAt"@, "lastSyncAt"@),
                "<never>"@,
            )
        }) by {
            peer_is_listed_in_full(peers_of(value@)[i]);
        }
    }
    lines
}

/// A peer is listed with its whole URL, a tab and the whole time of the last
/// synchronization. The URL is what stands under `url`, or without that under
/// `base_url`, or without both under `peer_url`; the time is what stands under
/// `last_sync_at`, or without that under `lastSyncAt`. Each is shown without the
/// white space around it, and where there is nothing to show a note is.
pub proof fn peer_is_listed_in_full(peer: JsonView)
    ensures
        peer_line(peer) == said(
            first_of(peer, "url"@, "base_url"@, "peer_url"@),
            "<unknown>"@,
        ) + "\t"@ + said(
            first_of(peer, "last_sync_at"@, "lastSyncAt"@, "lastSyncAt"@),
            "<never>"@,
        ),
        forall|url: Seq<char>, time: Seq<char>|
            #![trigger trimmed(url), trimmed(time)]
            first_of(peer, "url"@, "base_url"@, "peer_url"@) == Some(JsonView::Text(url)) && trimmed(
                url,
            ).len() > 0 && first_of(peer, "last_sync_at"@, "lastSyncAt"@, "lastSyncAt"@) == Some(
                JsonView::Text(time),
            ) && trimmed(time).len() > 0 ==> peer_line(peer) == trimmed(url) + seq!['\t'] + trimmed(
                time,
            ),
        forall|url: Seq<char>|
            #![trigger trimmed(url)]
            member(peer, "url"@) == Some(JsonView::Text(url)) && trimmed(url).len() > 0 && member(
                peer,
                "last_sync_at"@,
            ) is None && member(peer, "lastSyncAt"@) is None ==> peer_line(peer) == trimmed(url)
                + seq!['\t'] + "<never>"@,
        member(peer, "url"@) is None && member(peer, "base_url"@) is None && member(
            peer,
            "peer_url"@,
        ) is None ==> "<unknown>\t"@.is_prefix_of(peer_line(peer)),
{
    reveal_strlit("\t");
    reveal_strlit("<unknown>");
    reveal_strlit("<unknown>\t");
    assert("\t"@ =~= seq!['\t']);
    assert("<unknown>\t"@ =~= "<unknown>"@ + "\t"@);
    members_are_read_by_name(peer, "url"@, "base_url"@, "peer_url"@, "<unknown>"@);
    members_are_read_by_name(peer, "last_sync_at"@, "lastSyncAt"@, "lastSyncAt"@, "<never>"@);
}

} // verus!
