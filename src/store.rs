use vstd::prelude::*;
use crate::card_ids::{first_free_id, lemma_next_free_id_unused, next_free_id};
use crate::error::StoreError;
use crate::playlist::{copy_string_opt, copy_strings, strings_view, Playlist, PlaylistView};

verus! {

/// The playlists of one music library, with the library's root directory.
#[derive(Debug)]
pub struct Store {
    root_path: String,
    playlists: Vec<Playlist>,
}

/// The mathematical value of a [`Store`].
pub ghost struct StoreView {
    pub root_path: Seq<char>,
    pub playlists: Seq<PlaylistView>,
}

impl View for Store {
    type V = StoreView;

    closed spec fn view(&self) -> StoreView {
        StoreView { root_path: self.root_path@, playlists: self.playlists@.map_values(|p: Playlist| p@) }
    }
}

/// The card ids in use, in the order of the playlists that hold them.
pub open spec fn card_ids(pls: Seq<PlaylistView>) -> Seq<u32> {
    pls.filter_map(|p: PlaylistView| p.card_id)
}

/// The playlists that are bound to no card.
pub open spec fn without_card(pls: Seq<PlaylistView>) -> Seq<PlaylistView> {
    pls.filter(|p: PlaylistView| p.card_id is None)
}

/// Some playlist is called `name`.
pub open spec fn has_named(pls: Seq<PlaylistView>, name: Seq<char>) -> bool {
    exists|i: int| 0 <= i < pls.len() && #[trigger] pls[i].name == name
}

/// `i` is the first playlist called `name`.
pub open spec fn first_named(pls: Seq<PlaylistView>, name: Seq<char>, i: int) -> bool {
    &&& 0 <= i < pls.len()
    &&& pls[i].name == name
    &&& forall|j: int| 0 <= j < i ==> #[trigger] pls[j].name != name
}

/// Some playlist is bound to card `id`.
pub open spec fn has_card(pls: Seq<PlaylistView>, id: u32) -> bool {
    exists|i: int| 0 <= i < pls.len() && #[trigger] pls[i].card_id == Some(id)
}

/// `i` is the first playlist bound to card `id`.
pub open spec fn first_with_card(pls: Seq<PlaylistView>, id: u32, i: int) -> bool {
    &&& 0 <= i < pls.len()
    &&& pls[i].card_id == Some(id)
    &&& forall|j: int| 0 <= j < i ==> #[trigger] pls[j].card_id != Some(id)
}

/// The ten decimal digits.
pub open spec fn digit_char(d: nat) -> char {
    if d == 0 { '0' } else if d == 1 { '1' } else if d == 2 { '2' } else if d == 3 { '3' }
    else if d == 4 { '4' } else if d == 5 { '5' } else if d == 6 { '6' } else if d == 7 { '7' }
    else if d == 8 { '8' } else { '9' }
}

/// `n` written in decimal, without sign or leading zeros.
pub open spec fn decimal(n: nat) -> Seq<char>
    decreases n,
{
    if n < 10 {
        seq![digit_char(n)]
    } else {
        decimal(n / 10).push(digit_char(n % 10))
    }
}

/// The key that a failed lookup by card reports.
pub open spec fn card_key(id: u32) -> Seq<char> {
    "card "@ + decimal(id as nat)
}

/// Relies on u32's `to_string` (its `Display` impl): the number in decimal.
#[verifier::external_body]
fn decimal_string(n: u32) -> (r: String)
    ensures
        r@ == decimal(n as nat),
{
    n.to_string()
}

/// What the definitions document keeps of each playlist.
pub open spec fn definitions(pls: Seq<PlaylistView>) -> Seq<PlaylistView> {
    pls.map_values(|p: PlaylistView| p.persisted())
}

/// The playback positions that are set, each with its playlist's name.
pub open spec fn positions(pls: Seq<PlaylistView>) -> Seq<(Seq<char>, (usize, usize))> {
    pls.filter_map(
        |p: PlaylistView|
            match p.position {
                Some(x) => Some((p.name, x)),
                None => None,
            },
    )
}

/// A playlist with its files taken from `listing`, unless it is a remote stream,
/// which has none.
pub open spec fn resolved_playlist(p: PlaylistView, listing: Seq<Seq<char>>) -> PlaylistView {
    PlaylistView { files: if p.is_radio() { Seq::empty() } else { listing }, ..p }
}

/// The store at `root` whose playlists are `pls`, each resolved against the
/// listing at the same index.
pub open spec fn resolved(root: Seq<char>, pls: Seq<PlaylistView>, listings: Seq<Seq<Seq<char>>>) -> StoreView {
    StoreView {
        root_path: root,
        playlists: Seq::new(pls.len(), |i: int| resolved_playlist(pls[i], listings[i])),
    }
}

pub open spec fn playlist_views(v: Seq<Playlist>) -> Seq<PlaylistView> {
    v.map_values(|p: Playlist| p@)
}

pub open spec fn listing_views(v: Seq<Vec<String>>) -> Seq<Seq<Seq<char>>> {
    v.map_values(|l: Vec<String>| strings_view(l@))
}

impl Store {
    /// The index of the first playlist called `name`.
    fn find_by_name(&self, name: &str) -> (r: Option<usize>)
        ensures
            match r {
                Some(i) => first_named(self@.playlists, name@, i as int),
                None => !has_named(self@.playlists, name@),
            },
    {
        let key = name.to_string();
        let mut i: usize = 0;
        while i < self.playlists.len()
            invariant
                i <= self.playlists@.len(),
                key@ == name@,
                forall|j: int| 0 <= j < i ==> #[trigger] self@.playlists[j].name != name@,
            decreases self.playlists@.len() - i,
        {
            if self.playlists[i].name == key {
                return Some(i);
            }
            i = i + 1;
        }
        None
    }

    /// The next card id to hand out: the first gap in the ascending order of
    /// the ids in use, else one past the largest, else `0`.
    pub fn next_card_id(&self) -> (r: u32)
        requires
            next_free_id(card_ids(self@.playlists)) <= u32::MAX,
        ensures
            r == next_free_id(card_ids(self@.playlists)),
    {
        let mut ids: Vec<u32> = Vec::new();
        let mut i: usize = 0;
        while i < self.playlists.len()
            invariant
                i <= self.playlists@.len(),
                ids@ == card_ids(self@.playlists.subrange(0, i as int)),
            decreases self.playlists@.len() - i,
        {
            proof {
                let s = self@.playlists.subrange(0, i as int + 1);
                assert(s.drop_last() =~= self@.playlists.subrange(0, i as int));
            }
            match self.playlists[i].card_id {
                Some(id) => ids.push(id),
                None => {},
            }
            i = i + 1;
        }
        assert(self@.playlists.subrange(0, i as int) =~= self@.playlists);
        first_free_id(ids)
    }

    /// The first playlist called `name`, to read or change in place.
    pub fn playlist_by_name(&mut self, name: &str) -> (r: Result<&mut Playlist, StoreError>)
        ensures
            match r {
                Ok(p) => exists|i: int|
                    first_named(old(self)@.playlists, name@, i)
                    && p@ == old(self)@.playlists[i]
                    && final(self)@.playlists == old(self)@.playlists.update(i, final(p)@)
                    && final(self)@.root_path == old(self)@.root_path,
                Err(e) => !has_named(old(self)@.playlists, name@)
                    && *final(self) == *old(self)
                    && (e matches StoreError::PlaylistNotFound(k) && k@ == name@),
            },
    {
        match self.find_by_name(name) {
            Some(i) => {
                let p = &mut self.playlists[i];
                Ok(p)
            },
            None => Err(StoreError::PlaylistNotFound(name.to_string())),
        }
    }


    /// The first playlist bound to card `id`, to read or change in place.
    pub fn playlist_by_card(&mut self, id: u32) -> (r: Result<&mut Playlist, StoreError>)
        ensures
            match r {
                Ok(p) => exists|i: int|
                    first_with_card(old(self)@.playlists, id, i)
                    && p@ == old(self)@.playlists[i]
                    && final(self)@.playlists == old(self)@.playlists.update(i, final(p)@)
                    && final(self)@.root_path == old(self)@.root_path,
                Err(e) => !has_card(old(self)@.playlists, id)
                    && *final(self) == *old(self)
                    && (e matches StoreError::PlaylistNotFound(k) && k@ == card_key(id)),
            },
    {
        let mut i: usize = 0;
        while i < self.playlists.len()
            invariant
                i <= self.playlists@.len(),
                forall|j: int| 0 <= j < i ==> #[trigger] self@.playlists[j].card_id != Some(id),
                *self == *old(self),
            decreases self.playlists@.len() - i,
        {
            let found = match self.playlists[i].card_id {
                Some(c) => c == id,
                None => false,
            };
            if found {
                assert(first_with_card(old(self)@.playlists, id, i as int));
                let p = &mut self.playlists[i];
                return Ok(p);
            }
            i = i + 1;
        }
        let key = "card ".to_string().concat(decimal_string(id).as_str());
        Err(StoreError::PlaylistNotFound(key))
    }

    /// The files of the first playlist called `name`; none where no playlist
    /// has that name.
    pub fn get_files(&self, name: &str) -> (r: Vec<String>)
        ensures
            forall|i: int| first_named(self@.playlists, name@, i)
                ==> strings_view(r@) == #[trigger] self@.playlists[i].files,
            !has_named(self@.playlists, name@) ==> r@.len() == 0,
    {
        match self.find_by_name(name) {
            Some(i) => copy_strings(&self.playlists[i].files),
            None => Vec::new(),
        }
    }

    /// Binds the first playlist called `name` to card `id`, replacing any
    /// earlier card. Other playlists holding `id` keep it.
    pub fn set_playlist_card_id(&mut self, name: &str, id: u32) -> (r: Result<(), StoreError>)
        ensures
            match r {
                Ok(()) => exists|i: int|
                    first_named(old(self)@.playlists, name@, i)
                    && final(self)@.playlists == old(self)@.playlists.update(
                        i,
                        PlaylistView { card_id: Some(id), ..old(self)@.playlists[i] },
                    )
                    && final(self)@.root_path == old(self)@.root_path,
                Err(e) => !has_named(old(self)@.playlists, name@)
                    && *final(self) == *old(self)
                    && (e matches StoreError::PlaylistNotFound(k) && k@ == name@),
            },
    {
        match self.playlist_by_name(name) {
            Ok(p) => {
                p.card_id = Some(id);
                Ok(())
            },
            Err(e) => Err(e),
        }
    }

    /// Moves the first playlist called `name` to the start of track `pos`.
    pub fn set_position(&mut self, name: &str, pos: usize) -> (r: Result<(), StoreError>)
        ensures
            match r {
                Ok(()) => exists|i: int|
                    first_named(old(self)@.playlists, name@, i)
                    && final(self)@.playlists == old(self)@.playlists.update(
                        i,
                        PlaylistView { position: Some((pos, 0usize)), ..old(self)@.playlists[i] },
                    )
                    && final(self)@.root_path == old(self)@.root_path,
                Err(e) => !has_named(old(self)@.playlists, name@)
                    && *final(self) == *old(self)
                    && (e matches StoreError::PlaylistNotFound(k) && k@ == name@),
            },
    {
        match self.playlist_by_name(name) {
            Ok(p) => {
                p.position = Some((pos, 0));
                Ok(())
            },
            Err(e) => Err(e),
        }
    }

    /// The store at `root_path` holding `playlists`, as the definitions
    /// document lists them, with the files of each resolved: a playlist takes
    /// the listing at its own index as its files, unless it is a remote stream,
    /// which has none.
    pub fn resolve(root_path: String, playlists: Vec<Playlist>, listings: Vec<Vec<String>>) -> (r: Store)
        requires
            listings@.len() == playlists@.len(),
        ensures
            r@ == resolved(root_path@, playlist_views(playlists@), listing_views(listings@)),
            forall|i: int| 0 <= i < r@.playlists.len() && (#[trigger] r@.playlists[i]).is_radio()
                ==> r@.playlists[i].files.len() == 0,
    {
        let ghost want = resolved(root_path@, playlist_views(playlists@), listing_views(listings@));
        let mut out: Vec<Playlist> = Vec::new();
        let mut i: usize = 0;
        while i < playlists.len()
            invariant
                i <= playlists@.len(),
                listings@.len() == playlists@.len(),
                want == resolved(root_path@, playlist_views(playlists@), listing_views(listings@)),
                out@.len() == i,
                forall|j: int| 0 <= j < i ==> (#[trigger] out@[j])@ == want.playlists[j],
            decreases playlists@.len() - i,
        {
            let mut q = playlists[i].duplicate();
            if q.is_radio() {
                q.files = Vec::new();
            } else {
                q.files = copy_strings(&listings[i]);
            }
            proof {
                assert(q@.files =~= want.playlists[i as int].files);
            }
            out.push(q);
            i = i + 1;
        }
        let r = Store { root_path, playlists: out };
        assert(r@.playlists =~= want.playlists);
        r
    }

    /// The playlists, in the order of the definitions document.
    pub fn playlists(&self) -> (r: &[Playlist])
        ensures
            playlist_views(r@) == self@.playlists,
    {
        self.playlists.as_slice()
    }

    /// The library's root directory.
    pub fn root_path(&self) -> (r: &str)
        ensures
            r@ == self@.root_path,
    {
        self.root_path.as_str()
    }

    /// Copies of the playlists that are bound to no card, in order.
    pub fn playlists_without_card(&self) -> (r: Vec<Playlist>)
        ensures
            playlist_views(r@) == without_card(self@.playlists),
    {
        let mut out: Vec<Playlist> = Vec::new();
        let mut i: usize = 0;
        while i < self.playlists.len()
            invariant
                i <= self.playlists@.len(),
                playlist_views(out@) == without_card(self@.playlists.subrange(0, i as int)),
            decreases self.playlists@.len() - i,
        {
            proof {
                let s = self@.playlists.subrange(0, i as int + 1);
                assert(s.drop_last() =~= self@.playlists.subrange(0, i as int));
                reveal(Seq::filter);
            }
            if self.playlists[i].card_id.is_none() {
                let q = self.playlists[i].duplicate();
                out.push(q);
                assert(playlist_views(out@) =~= without_card(self@.playlists.subrange(0, i as int + 1)));
            }
            i = i + 1;
        }
        assert(self@.playlists.subrange(0, i as int) =~= self@.playlists);
        out
    }

    /// The playlists as the definitions document keeps them: no files and no
    /// playback position.
    pub fn definitions(&self) -> (r: Vec<Playlist>)
        ensures
            playlist_views(r@) == definitions(self@.playlists),
    {
        let mut out: Vec<Playlist> = Vec::new();
        let mut i: usize = 0;
        while i < self.playlists.len()
            invariant
                i <= self.playlists@.len(),
                out@.len() == i,
                forall|j: int| 0 <= j < i ==> (#[trigger] out@[j])@ == self@.playlists[j].persisted(),
            decreases self.playlists@.len() - i,
        {
            let p = &self.playlists[i];
            let q = Playlist::new(p.name.clone(), p.card_id, p.allow_random, copy_string_opt(&p.radio_url));
            assert(q@ == self@.playlists[i as int].persisted());
            out.push(q);
            i = i + 1;
        }
        assert(playlist_views(out@) =~= definitions(self@.playlists));
        out
    }

    /// The playback positions that are set, each with its playlist's name, in
    /// the order of the playlists.
    pub fn positions(&self) -> (r: Vec<(String, (usize, usize))>)
        ensures
            r@.map_values(|e: (String, (usize, usize))| (e.0@, e.1)) == positions(self@.playlists),
    {
        let mut out: Vec<(String, (usize, usize))> = Vec::new();
        let mut i: usize = 0;
        while i < self.playlists.len()
            invariant
                i <= self.playlists@.len(),
                out@.map_values(|e: (String, (usize, usize))| (e.0@, e.1))
                    == positions(self@.playlists.subrange(0, i as int)),
            decreases self.playlists@.len() - i,
        {
            proof {
                let s = self@.playlists.subrange(0, i as int + 1);
                assert(s.drop_last() =~= self@.playlists.subrange(0, i as int));
            }
            match self.playlists[i].position {
                Some(x) => {
                    out.push((self.playlists[i].name.clone(), x));
                    assert(out@.map_values(|e: (String, (usize, usize))| (e.0@, e.1))
                        =~= positions(self@.playlists.subrange(0, i as int + 1)));
                },
                None => {},
            }
            i = i + 1;
        }
        assert(self@.playlists.subrange(0, i as int) =~= self@.playlists);
        out
    }
}

/// Loading what a store's definitions document keeps, with any directory
/// listings and at any root, gives back the same definitions: each playlist
/// keeps its name, card id, random flag and radio url, in the same order.
pub proof fn lemma_reload_keeps_definitions(s: StoreView, root: Seq<char>, listings: Seq<Seq<Seq<char>>>)
    requires
        listings.len() == s.playlists.len(),
    ensures
        definitions(resolved(root, definitions(s.playlists), listings).playlists)
            == definitions(s.playlists),
{
    let back = resolved(root, definitions(s.playlists), listings).playlists;
    assert(definitions(back) =~= definitions(s.playlists));
}

/// Binding the first playlist called `name` to card `id` makes a lookup by
/// `id` find a playlist called `name`, where no playlist of another name held
/// `id` before.
pub proof fn lemma_bound_card_is_found(before: StoreView, after: StoreView, name: Seq<char>, id: u32)
    requires
        exists|i: int|
            first_named(before.playlists, name, i)
            && after.playlists == before.playlists.update(
                i,
                PlaylistView { card_id: Some(id), ..before.playlists[i] },
            ),
        forall|j: int| 0 <= j < before.playlists.len() && #[trigger] before.playlists[j].card_id == Some(id)
            ==> before.playlists[j].name == name,
    ensures
        has_card(after.playlists, id),
        forall|k: int| #[trigger] first_with_card(after.playlists, id, k) ==> after.playlists[k].name == name,
{
    let i = choose|i: int|
        first_named(before.playlists, name, i)
        && after.playlists == before.playlists.update(
            i,
            PlaylistView { card_id: Some(id), ..before.playlists[i] },
        );
    assert(after.playlists[i].card_id == Some(id));
    assert forall|k: int| #[trigger] first_with_card(after.playlists, id, k) implies after.playlists[k].name == name by {
        if k != i {
            assert(before.playlists[k].card_id == Some(id));
        }
    }
}

proof fn lemma_card_listed(pls: Seq<PlaylistView>, j: int)
    requires
        0 <= j < pls.len(),
        pls[j].card_id is Some,
    ensures
        card_ids(pls).contains(pls[j].card_id->0),
    decreases pls.len(),
{
    let rest = pls.drop_last();
    let c = pls[j].card_id->0;
    if j == pls.len() - 1 {
        assert(card_ids(pls) == card_ids(rest) + seq![c]);
        assert(card_ids(pls)[card_ids(pls).len() - 1] == c);
    } else {
        assert(rest[j] == pls[j]);
        lemma_card_listed(rest, j);
        let k = choose|k: int| 0 <= k < card_ids(rest).len() && card_ids(rest)[k] == c;
        match pls.last().card_id {
            Some(x) => {
                assert(card_ids(pls) == card_ids(rest) + seq![x]);
                assert(card_ids(pls)[k] == c);
            },
            None => {},
        }
    }
}

/// Where no two playlists share a card, the next card id binds no playlist.
pub proof fn lemma_next_card_id_unused(s: StoreView)
    requires
        card_ids(s.playlists).no_duplicates(),
    ensures
        forall|j: int| 0 <= j < s.playlists.len() && (#[trigger] s.playlists[j]).card_id is Some
            ==> s.playlists[j].card_id->0 != next_free_id(card_ids(s.playlists)),
{
    lemma_next_free_id_unused(card_ids(s.playlists));
    assert forall|j: int| 0 <= j < s.playlists.len() && (#[trigger] s.playlists[j]).card_id is Some
        implies s.playlists[j].card_id->0 != next_free_id(card_ids(s.playlists)) by {
        lemma_card_listed(s.playlists, j);
    }
}

} // verus!
