//! The menu of the menu-bar icon, as items to build.
use vstd::prelude::*;

use crate::provider::VpnStatus;
use crate::text::{append_str, owned};

verus! {

broadcast use vstd::string::group_string_axioms;

/// What `str::to_lowercase` gives for a text.
pub uninterp spec fn text_lowercase(s: Seq<char>) -> Seq<char>;

/// `str::to_lowercase`. Besides naming the result, the contract states what the
/// documentation shows of ASCII text: its capital letters become small ones.
#[verifier::external_body]
pub(crate) fn lowercase(s: &str) -> (r: String)
    ensures
        r@ == text_lowercase(s@),
        (forall|i: int| 0 <= i < s@.len() ==> (#[trigger] s@[i] as u32) < 128) ==> r@ == s@.map_values(
            |c: char| crate::text::ascii_lower(c),
        ),
{
    s.to_lowercase()
}

/// An item of the menu.
#[derive(Debug, Clone)]
pub enum TrayEntry {
    Item { id: String, label: String, enabled: bool },
    Separator,
}

/// An entry as plain values: whether it is a separator, its id, its label,
/// whether it can be clicked.
pub open spec fn entry_view(e: TrayEntry) -> (bool, Seq<char>, Seq<char>, bool) {
    match e {
        TrayEntry::Item { id, label, enabled } => (false, id@, label@, enabled),
        TrayEntry::Separator => (true, Seq::empty(), Seq::empty(), false),
    }
}

pub open spec fn item(id: Seq<char>, label: Seq<char>, enabled: bool) -> (bool, Seq<char>, Seq<char>, bool) {
    (false, id, label, enabled)
}

pub open spec fn separator() -> (bool, Seq<char>, Seq<char>, bool) {
    (true, Seq::empty(), Seq::empty(), false)
}

/// The entries for one provider: a toggle showing a filled or empty dot, the
/// name and the state; for a connected provider with an address, a disabled
/// line with the address; then a separator.
pub open spec fn status_block(st: VpnStatus) -> Seq<(bool, Seq<char>, Seq<char>, bool)> {
    let lower = text_lowercase(st.provider@);
    let toggle = item(
        "toggle_"@ + lower,
        (if st.connected { "●"@ } else { "○"@ }) + " "@ + st.provider@ + "  "@ + (if st.connected {
            "Connected"@
        } else {
            "Disconnected"@
        }),
        true,
    );
    let detail = match st.ip {
        Some(ip) => if st.connected {
            seq![item("detail_"@ + lower, "   "@ + ip@, false)]
        } else {
            seq![]
        },
        None => seq![],
    };
    seq![toggle] + detail + seq![separator()]
}

/// The entries for the providers, in order.
pub open spec fn status_blocks(sts: Seq<VpnStatus>) -> Seq<(bool, Seq<char>, Seq<char>, bool)>
    decreases sts.len(),
{
    if sts.len() == 0 {
        seq![]
    } else {
        status_blocks(sts.drop_last()) + status_block(sts.last())
    }
}

/// The whole menu: the providers' entries, then `Open Dashboard`, a separator
/// and `Quit Conduit`.
pub open spec fn tray_menu_of(sts: Seq<VpnStatus>) -> Seq<(bool, Seq<char>, Seq<char>, bool)> {
    status_blocks(sts) + seq![item("open"@, "Open Dashboard"@, true), separator(), item("quit"@, "Quit Conduit"@, true)]
}

/// The entries as plain values.
pub open spec fn entries_view(es: Seq<TrayEntry>) -> Seq<(bool, Seq<char>, Seq<char>, bool)> {
    es.map_values(|e: TrayEntry| entry_view(e))
}

fn push_item(es: &mut Vec<TrayEntry>, id: String, label: String, enabled: bool)
    ensures
        entries_view(final(es)@) == entries_view(old(es)@).push(item(id@, label@, enabled)),
{
    es.push(TrayEntry::Item { id, label, enabled });
    proof {
        assert(entries_view(final(es)@) =~= entries_view(old(es)@).push(item(id@, label@, enabled)));
    }
}

fn push_separator(es: &mut Vec<TrayEntry>)
    ensures
        entries_view(final(es)@) == entries_view(old(es)@).push(separator()),
{
    es.push(TrayEntry::Separator);
    proof {
        assert(entries_view(final(es)@) =~= entries_view(old(es)@).push(separator()));
    }
}

/// The menu for the current statuses.
pub fn tray_menu(statuses: &Vec<VpnStatus>) -> (r: Vec<TrayEntry>)
    ensures
        entries_view(r@) == tray_menu_of(statuses@),
{
    let mut es: Vec<TrayEntry> = Vec::new();
    let mut i: usize = 0;
    proof {
        assert(entries_view(es@) =~= status_blocks(statuses@.take(0)));
    }
    while i < statuses.len()
        invariant
            i <= statuses@.len(),
            entries_view(es@) == status_blocks(statuses@.take(i as int)),
        decreases statuses@.len() - i,
    {
        let st = &statuses[i];
        let ghost before = entries_view(es@);
        proof {
            assert(statuses@.take(i + 1).drop_last() =~= statuses@.take(i as int));
            assert(statuses@.take(i + 1).last() == *st);
        }
        let lower = lowercase(st.provider.as_str());
        let mut label = owned(if st.connected { "●" } else { "○" });
        append_str(&mut label, " ");
        append_str(&mut label, st.provider.as_str());
        append_str(&mut label, "  ");
        append_str(&mut label, if st.connected { "Connected" } else { "Disconnected" });
        let mut id = owned("toggle_");
        append_str(&mut id, lower.as_str());
        push_item(&mut es, id, label, true);
        if st.connected {
            match &st.ip {
                Some(ip) => {
                    let mut detail_id = owned("detail_");
                    append_str(&mut detail_id, lower.as_str());
                    let mut detail = owned("   ");
                    append_str(&mut detail, ip.as_str());
                    push_item(&mut es, detail_id, detail, false);
                },
                None => {},
            }
        }
        push_separator(&mut es);
        proof {
            assert(entries_view(es@) =~= before + status_block(*st));
        }
        i = i + 1;
    }
    push_item(&mut es, owned("open"), owned("Open Dashboard"), true);
    push_separator(&mut es);
    push_item(&mut es, owned("quit"), owned("Quit Conduit"), true);
    proof {
        assert(statuses@.take(statuses@.len() as int) =~= statuses@);
        assert(entries_view(es@) =~= tray_menu_of(statuses@));
    }
    es
}

} // verus!
