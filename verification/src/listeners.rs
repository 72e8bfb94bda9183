//! From file system events to the images they concern.

use crate::config::{Image, ImageModel};
use crate::mapping::{has_key, merged, position, put_entry, unique_keys};
use crate::supervisor::Event;
use vstd::prelude::*;

verus! {

/// A debounced event of the file system watcher, with the path it
/// concerns where it has one that matters here.
#[derive(Debug)]
pub enum WatchEvent {
    Create(String),
    Write(String),
    Remove(String),
    /// Any other kind of event.
    Other,
}

/// The path of an event that tells of a change: of a creation, a write or
/// a removal.
pub open spec fn changed_path(event: WatchEvent) -> Option<Seq<char>> {
    match event {
        WatchEvent::Create(path) => Some(path@),
        WatchEvent::Write(path) => Some(path@),
        WatchEvent::Remove(path) => Some(path@),
        WatchEvent::Other => None,
    }
}

/// The path that `event` tells a change of, if it tells of one.
pub fn watched_path(event: &WatchEvent) -> (path: Option<&String>)
    ensures
        path.deep_view() == changed_path(*event),
{
    match event {
        WatchEvent::Create(path) => Some(path),
        WatchEvent::Write(path) => Some(path),
        WatchEvent::Remove(path) => Some(path),
        WatchEvent::Other => None,
    }
}

/// The source directory of each image that has one, with the name of the
/// image, in the order of the images.
pub open spec fn sources(images: Seq<ImageModel>) -> Seq<(Seq<char>, Seq<char>)>
    decreases images.len(),
{
    if images.len() == 0 {
        Seq::empty()
    } else {
        match images.last().path {
            Some(path) => sources(images.drop_last()).push((path, images.last().name)),
            None => sources(images.drop_last()),
        }
    }
}

/// The source directory of each image that has one, with the name of the
/// image.
pub fn source_paths(images: &Vec<Image>) -> (paths: Vec<(String, String)>)
    ensures
        paths.deep_view() == sources(images.deep_view()),
{
    let ghost all = images.deep_view();
    let mut paths: Vec<(String, String)> = Vec::new();
    let mut i: usize = 0;
    while i < images.len()
        invariant
            i <= images.len(),
            all == images.deep_view(),
            paths.deep_view() == sources(all.take(i as int)),
        decreases images.len() - i,
    {
        let image = &images[i];
        proof {
            assert(all.take(i + 1).drop_last() =~= all.take(i as int));
            assert(all.take(i + 1).last() == image@);
        }
        if let Some(path) = &image.path {
            let ghost before = paths.deep_view();
            paths.push((path.clone(), image.name.clone()));
            assert(paths.deep_view() =~= before.push((path@, image.name@)));
        }
        i += 1;
    }
    assert(all.take(i as int) =~= all);
    paths
}

/// The image whose source directory is `path`.
pub open spec fn image_at(locations: Seq<(Seq<char>, Seq<char>)>, path: Seq<char>) -> Option<
    Seq<char>,
> {
    if has_key(locations, path) {
        Some(locations[choose|i: int| 0 <= i < locations.len() && locations[i].0 == path].1)
    } else {
        None
    }
}

/// Which image each source directory belongs to. The directories are
/// canonical paths; no directory occurs twice.
#[derive(Debug)]
pub struct ImageSourceLocations {
    locations: Vec<(String, String)>,
}

impl View for ImageSourceLocations {
    type V = Seq<(Seq<char>, Seq<char>)>;

    closed spec fn view(&self) -> Seq<(Seq<char>, Seq<char>)> {
        self.locations.deep_view()
    }
}

impl ImageSourceLocations {
    /// No directory occurs twice.
    #[verifier::type_invariant]
    spec fn no_directory_twice(self) -> bool {
        unique_keys(self.locations.deep_view())
    }

    /// The index of the given pairs of directory and image name: of two
    /// pairs with one directory the later one stands.
    pub fn new(pairs: Vec<(String, String)>) -> (index: ImageSourceLocations)
        ensures
            unique_keys(index@),
            index@ == merged(pairs.deep_view()),
    {
        let ghost all = pairs.deep_view();
        let mut locations: Vec<(String, String)> = Vec::new();
        let mut i: usize = 0;
        while i < pairs.len()
            invariant
                i <= pairs.len(),
                all == pairs.deep_view(),
                unique_keys(locations.deep_view()),
                locations.deep_view() == merged(all.take(i as int)),
            decreases pairs.len() - i,
        {
            let path = pairs[i].0.clone();
            let name = pairs[i].1.clone();
            proof {
                assert(all.take(i + 1).drop_last() =~= all.take(i as int));
                assert(all.take(i + 1).last() == (path@, name@));
            }
            put_entry(&mut locations, path, name);
            i += 1;
        }
        assert(all.take(i as int) =~= all);
        ImageSourceLocations { locations }
    }

    /// The watched directories.
    pub fn paths(&self) -> (paths: Vec<String>)
        ensures
            paths.deep_view() == self@.map_values(|entry: (Seq<char>, Seq<char>)| entry.0),
    {
        let mut paths: Vec<String> = Vec::new();
        let mut i: usize = 0;
        while i < self.locations.len()
            invariant
                i <= self.locations.len(),
                paths.len() == i,
                forall|j: int| 0 <= j < i ==> paths.deep_view()[j] == self@[j].0,
            decreases self.locations.len() - i,
        {
            let ghost before = paths.deep_view();
            paths.push(self.locations[i].0.clone());
            assert(paths.deep_view() =~= before.push(self.locations[i as int].0@));
            assert(self@[i as int].0 == self.locations[i as int].0@);
            i += 1;
        }
        assert(paths.deep_view() =~= self@.map_values(|entry: (Seq<char>, Seq<char>)| entry.0));
        paths
    }

    /// The event for a change in the directory `path`: a change of the
    /// image whose source directory it is, and none where it is the
    /// directory of no image.
    pub fn source_changed(&self, path: &str) -> (event: Option<Event>)
        ensures
            unique_keys(self@),
            image_at(self@, path@) is None ==> event is None,
            image_at(self@, path@) matches Some(name) ==> event matches Some(
                Event::SourceChanged(changed),
            ) && changed@ == name,
    {
        proof {
            use_type_invariant(self);
        }
        let wanted = path.to_owned();
        match position(&self.locations, &wanted) {
            Some(k) => {
                proof {
                    let c = choose|i: int| 0 <= i < self@.len() && self@[i].0 == path@;
                    assert(self@[k as int].0 == path@);
                    if c != k {
                        assert(self@[c].0 != self@[k as int].0);
                    }
                    assert(self@[k as int].1 == self.locations[k as int].1@);
                }
                Some(Event::SourceChanged(self.locations[k].1.clone()))
            },
            None => None,
        }
    }
}

} // verus!
