use vstd::prelude::*;

verus! {

/// One named collection of audio tracks, or a remote stream.
///
/// `files` is derived from the library's files directory and `position` is the
/// playback cursor of the running session; neither belongs to the playlist
/// definitions document.
#[derive(Debug)]
pub struct Playlist {
    pub name: String,
    pub card_id: Option<u32>,
    pub allow_random: bool,
    pub radio_url: Option<String>,
    pub files: Vec<String>,
    pub position: Option<(usize, usize)>,
}

/// The mathematical value of a [`Playlist`].
pub ghost struct PlaylistView {
    pub name: Seq<char>,
    pub card_id: Option<u32>,
    pub allow_random: bool,
    pub radio_url: Option<Seq<char>>,
    pub files: Seq<Seq<char>>,
    pub position: Option<(usize, usize)>,
}

pub open spec fn opt_string_view(o: Option<String>) -> Option<Seq<char>> {
    match o {
        Some(s) => Some(s@),
        None => None,
    }
}

pub open spec fn strings_view(v: Seq<String>) -> Seq<Seq<char>> {
    v.map_values(|s: String| s@)
}

impl View for Playlist {
    type V = PlaylistView;

    open spec fn view(&self) -> PlaylistView {
        PlaylistView {
            name: self.name@,
            card_id: self.card_id,
            allow_random: self.allow_random,
            radio_url: opt_string_view(self.radio_url),
            files: strings_view(self.files@),
            position: self.position,
        }
    }
}

impl PlaylistView {
    /// The fields that the definitions document keeps: the same playlist
    /// with no files and no position.
    pub open spec fn persisted(self) -> PlaylistView {
        PlaylistView { files: Seq::empty(), position: None, ..self }
    }

    pub open spec fn is_radio(self) -> bool {
        self.radio_url is Some
    }
}

pub(crate) fn copy_string_opt(o: &Option<String>) -> (r: Option<String>)
    ensures
        opt_string_view(r) == opt_string_view(*o),
{
    match o {
        Some(s) => Some(s.clone()),
        None => None,
    }
}

pub(crate) fn copy_strings(v: &Vec<String>) -> (r: Vec<String>)
    ensures
        strings_view(r@) == strings_view(v@),
{
    let mut r: Vec<String> = Vec::new();
    let mut i: usize = 0;
    while i < v.len()
        invariant
            i <= v@.len(),
            r@.len() == i,
            forall|j: int| 0 <= j < i ==> r@[j]@ == v@[j]@,
        decreases v@.len() - i,
    {
        let s: String = v[i].clone();
        r.push(s);
        i = i + 1;
    }
    assert(strings_view(r@) =~= strings_view(v@));
    r
}

impl Playlist {
    /// A playlist as the definitions document describes it: no files resolved
    /// yet and no playback position.
    pub fn new(name: String, card_id: Option<u32>, allow_random: bool, radio_url: Option<String>) -> (r: Playlist)
        ensures
            r@.name == name@,
            r@.card_id == card_id,
            r@.allow_random == allow_random,
            r@.radio_url == opt_string_view(radio_url),
            r@.files == Seq::<Seq<char>>::empty(),
            r@.position is None,
    {
        let r = Playlist { name, card_id, allow_random, radio_url, files: Vec::new(), position: None };
        assert(r@.files =~= Seq::<Seq<char>>::empty());
        r
    }

    /// An independent copy with the same value.
    pub fn duplicate(&self) -> (r: Playlist)
        ensures
            r@ == self@,
    {
        Playlist {
            name: self.name.clone(),
            card_id: self.card_id,
            allow_random: self.allow_random,
            radio_url: copy_string_opt(&self.radio_url),
            files: copy_strings(&self.files),
            position: self.position,
        }
    }

    /// Whether the playlist is a remote stream, with no local files.
    pub fn is_radio(&self) -> (r: bool)
        ensures
            r == self@.is_radio(),
    {
        self.radio_url.is_some()
    }
}

} // verus!
