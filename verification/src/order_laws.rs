//! In which order things are listed.

use vstd::prelude::*;

use crate::baseboard::{Baseboard, BaseboardView};
use crate::inventory::types::{
    BaseboardId, BaseboardIdView, Caboose, CaboosePlace, CabooseView, PlaceView, RotPage,
    RotPagePlace,
};
use crate::ordmap::{in_order, lists_keys, order_exists, Key};
use crate::storage::disk::{DiskIdentity, DiskIdentityView};
use crate::text::{in_text_order, seq_lt, seq_lt_is_total, texts_lt};

verus! {

/// Disks are ordered by their vendors, then by their serial numbers, and then by their models.
pub proof fn disks_are_ordered_by_vendor_serial_and_model(a: DiskIdentityView, b: DiskIdentityView)
    ensures
        DiskIdentity::before(a, b) <==> seq_lt(a.vendor, b.vendor) || (a.vendor == b.vendor && (
        seq_lt(a.serial, b.serial) || (a.serial == b.serial && seq_lt(a.model, b.model)))),
{
    let x = a.texts();
    let y = b.texts();
    reveal_with_fuel(texts_lt, 4);
    assert(x.drop_first() =~= seq![a.serial, a.model]);
    assert(y.drop_first() =~= seq![b.serial, b.model]);
    assert(x.drop_first().drop_first() =~= seq![a.model]);
    assert(y.drop_first().drop_first() =~= seq![b.model]);
    assert(x.drop_first().drop_first().drop_first() =~= Seq::empty());
    assert(y.drop_first().drop_first().drop_first() =~= Seq::empty());
    seq_lt_is_total(a.vendor, b.vendor);
    seq_lt_is_total(a.serial, b.serial);
    seq_lt_is_total(a.model, b.model);
}

/// Boards are ordered by their identifiers, then by their models, and then by their revisions.
pub proof fn boards_are_ordered_by_identifier_model_and_revision(a: BaseboardView, b: BaseboardView)
    ensures
        Baseboard::before(a, b) <==> seq_lt(a.identifier, b.identifier) || (a.identifier
            == b.identifier && (seq_lt(a.model, b.model) || (a.model == b.model && a.revision
            < b.revision))),
{
    let x = a.texts();
    let y = b.texts();
    reveal_with_fuel(texts_lt, 3);
    assert(x.drop_first() =~= seq![a.model]);
    assert(y.drop_first() =~= seq![b.model]);
    assert(x.drop_first().drop_first() =~= Seq::empty());
    assert(y.drop_first().drop_first() =~= Seq::empty());
    seq_lt_is_total(a.identifier, b.identifier);
    seq_lt_is_total(a.model, b.model);
    if a.identifier == b.identifier && a.model == b.model {
        assert(x =~= y);
    }
    if x == y {
        assert(x[0] == y[0] && x[1] == y[1]);
    }
}

/// Hardware is ordered by its part number, and then by its serial number.
pub proof fn hardware_is_ordered_by_part_and_serial(a: BaseboardIdView, b: BaseboardIdView)
    ensures
        BaseboardId::before(a, b) <==> seq_lt(a.part_number, b.part_number) || (a.part_number
            == b.part_number && seq_lt(a.serial_number, b.serial_number)),
{
    let x = a.texts();
    let y = b.texts();
    reveal_with_fuel(texts_lt, 3);
    assert(x.drop_first() =~= seq![a.serial_number]);
    assert(y.drop_first() =~= seq![b.serial_number]);
    assert(x.drop_first().drop_first() =~= Seq::empty());
    assert(y.drop_first().drop_first() =~= Seq::empty());
    seq_lt_is_total(a.part_number, b.part_number);
    seq_lt_is_total(a.serial_number, b.serial_number);
}

/// Images are ordered by their boards, then by their commits, then by their names, and then by their
/// versions.
pub proof fn images_are_ordered_by_board_commit_name_and_version(a: CabooseView, b: CabooseView)
    ensures
        Caboose::before(a, b) <==> seq_lt(a.board, b.board) || (a.board == b.board && (seq_lt(
            a.git_commit,
            b.git_commit,
        ) || (a.git_commit == b.git_commit && (seq_lt(a.name, b.name) || (a.name == b.name
            && seq_lt(a.version, b.version)))))),
{
    let x = a.texts();
    let y = b.texts();
    reveal_with_fuel(texts_lt, 5);
    assert(x.drop_first() =~= seq![a.git_commit, a.name, a.version]);
    assert(y.drop_first() =~= seq![b.git_commit, b.name, b.version]);
    assert(x.drop_first().drop_first() =~= seq![a.name, a.version]);
    assert(y.drop_first().drop_first() =~= seq![b.name, b.version]);
    assert(x.drop_first().drop_first().drop_first() =~= seq![a.version]);
    assert(y.drop_first().drop_first().drop_first() =~= seq![b.version]);
    assert(x.drop_first().drop_first().drop_first().drop_first() =~= Seq::empty());
    assert(y.drop_first().drop_first().drop_first().drop_first() =~= Seq::empty());
    seq_lt_is_total(a.board, b.board);
    seq_lt_is_total(a.git_commit, b.git_commit);
    seq_lt_is_total(a.name, b.name);
    seq_lt_is_total(a.version, b.version);
}

/// Places of images and of pages are ordered by their ranks, and then by their hardware. Pages are
/// ordered by what they hold, ids by their numbers, and texts as texts.
pub proof fn places_are_ordered_by_rank_and_hardware(
    a: PlaceView,
    b: PlaceView,
    m: u128,
    n: u128,
    s: Seq<char>,
    t: Seq<char>,
)
    ensures
        CaboosePlace::before(a, b) <==> a.which < b.which || (a.which == b.which
            && BaseboardId::before(a.baseboard, b.baseboard)),
        RotPagePlace::before(a, b) <==> a.which < b.which || (a.which == b.which
            && BaseboardId::before(a.baseboard, b.baseboard)),
        RotPage::before(s, t) <==> seq_lt(s, t),
        String::before(s, t) <==> seq_lt(s, t),
        u128::before(m, n) <==> m < n,
{
}

/// What identifies things that are kept in order is all that they hold by which they are told apart.
pub proof fn things_are_identified_by_what_they_hold(
    disk: DiskIdentity,
    board: Baseboard,
    hardware: BaseboardId,
    image: Caboose,
    page: RotPage,
)
    ensures
        disk.id().vendor == disk.vendor@,
        disk.id().serial == disk.serial@,
        disk.id().model == disk.model@,
        board.id().identifier == board.identifier@,
        board.id().model == board.model@,
        board.id().revision == board.revision,
        hardware.id().part_number == hardware.part_number@,
        hardware.id().serial_number == hardware.serial_number@,
        image.id().board == image.board@,
        image.id().git_commit == image.git_commit@,
        image.id().name == image.name@,
        image.id().version == image.version@,
        page.id() == page.data_base64@,
{
}

/// Texts are in order if and only if no later one comes before an earlier one, and so each is the
/// same as the next or comes before it.
pub proof fn texts_in_order_never_go_back(texts: Seq<Seq<char>>, i: int, j: int)
    ensures
        in_text_order(texts) && 0 <= i < j < texts.len() ==> texts[i] == texts[j] || seq_lt(
            texts[i],
            texts[j],
        ),
        0 <= i < j < texts.len() && seq_lt(texts[j], texts[i]) ==> !in_text_order(texts),
        (forall|k: int, l: int|
            0 <= k < l < texts.len() ==> texts[k] == texts[l] || seq_lt(
                #[trigger] texts[k],
                #[trigger] texts[l],
            )) ==> in_text_order(texts),
{
    if 0 <= i < j < texts.len() {
        seq_lt_is_total(texts[i], texts[j]);
    }
    if forall|k: int, l: int|
        0 <= k < l < texts.len() ==> texts[k] == texts[l] || seq_lt(
            #[trigger] texts[k],
            #[trigger] texts[l],
        ) {
        assert forall|k: int, l: int| 0 <= k < l < texts.len() implies !seq_lt(
            #[trigger] texts[l],
            #[trigger] texts[k],
        ) by {
            seq_lt_is_total(texts[k], texts[l]);
        }
    }
}

/// The members of a set are listed each once, and in increasing order.
pub proof fn members_are_listed_once_in_order<K: Key>(set: Set<K::Id>, i: int, j: int, k: K::Id)
    requires
        set.finite(),
    ensures
        in_order::<K>(set).len() == set.len(),
        in_order::<K>(set).contains(k) <==> set.contains(k),
        0 <= i < j < set.len() ==> K::before(in_order::<K>(set)[i], in_order::<K>(set)[j]),
{
    order_exists::<K>(set);
    let keys = in_order::<K>(set);
    assert(lists_keys::<K>(keys, set));
    if keys.contains(k) {
        let n = choose|n: int| 0 <= n < keys.len() && keys[n] == k;
        assert(set.contains(keys[n]));
    }
}

} // verus!
