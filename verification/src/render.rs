use vstd::prelude::*;
use vstd::hash_map::StringHashMap;
use crate::errors::DecodeError;
use crate::formats;
use crate::raw;
use crate::raw::DisplayImage;

verus! {

/// The in-memory render cache: file path to fully decoded display
/// image. The first request for a path decodes and stores; later
/// requests for the same path are served from the store without another
/// decode. Nothing is ever evicted; the expected working set is one
/// directory's previews. Callers sharing a cache serialize around it,
/// so insertion is mutually exclusive and at most one decode per path
/// reaches the store.
pub struct RenderCache {
    map: StringHashMap<DisplayImage>,
}

impl View for RenderCache {
    type V = Map<Seq<char>, DisplayImage>;

    closed spec fn view(&self) -> Map<Seq<char>, DisplayImage> {
        self.map@
    }
}

impl RenderCache {
    /// Every stored image is well formed.
    pub open spec fn wf(&self) -> bool {
        forall|k: Seq<char>| self@.contains_key(k) ==> (#[trigger] self@[k]).wf()
    }

    /// An empty cache.
    pub fn new() -> (r: RenderCache)
        ensures
            r@ == Map::<Seq<char>, DisplayImage>::empty(),
            r.wf(),
    {
        RenderCache { map: StringHashMap::new() }
    }

    /// Whether a path's image is already cached.
    pub fn contains(&self, path: &String) -> (r: bool)
        ensures
            r == self@.contains_key(path@),
    {
        self.map.contains_key(path.as_str())
    }

    /// The stored image of a path, if any.
    pub fn lookup(&self, path: &String) -> (r: Option<&DisplayImage>)
        ensures
            match r {
                Some(img) => self@.contains_key(path@) && *img == self@[path@],
                None => !self@.contains_key(path@),
            },
    {
        self.map.get(path.as_str())
    }

    /// Stores a decoded image under its path: the cache's only
    /// mutation.
    pub fn insert(&mut self, path: String, img: DisplayImage)
        requires
            old(self).wf(),
            img.wf(),
        ensures
            final(self)@ == old(self)@.insert(path@, img),
            final(self).wf(),
    {
        self.map.insert(path, img);
        proof {
            assert forall|k: Seq<char>| self@.contains_key(k) implies (#[trigger] self@[k]).wf() by {
                if k != path@ {
                    assert(old(self)@.contains_key(k));
                    assert(self@[k] == old(self)@[k]);
                }
            }
        }
    }

    /// Serves a path, decoding at most on a miss: a hit returns the
    /// stored image and leaves the cache as it stood, without touching
    /// a decoder; a miss decodes through the format dispatcher, stores
    /// the image and returns it; a failed decode stores nothing, and
    /// the caller reports "no displayable image" for this file.
    pub fn get_display_image(&mut self, path: &String) -> (r: Result<DisplayImage, DecodeError>)
        requires
            old(self).wf(),
        ensures
            final(self).wf(),
            old(self)@.contains_key(path@) ==> final(self)@ == old(self)@ && (r matches Ok(img)
                && img.width == old(self)@[path@].width && img.height == old(self)@[path@].height
                && img.data@ == old(self)@[path@].data@),
            !old(self)@.contains_key(path@) ==> match r {
                Ok(img) => img.wf() && img.width > 0 && img.height > 0 && final(self)@ == old(
                    self,
                )@.insert(path@, final(self)@[path@]) && final(self)@[path@].width == img.width
                    && final(self)@[path@].height == img.height && final(self)@[path@].data@
                    == img.data@,
                Err(e) => final(self)@ == old(self)@ && (e == DecodeError::UnsupportedFormat
                    <==> !formats::is_supported_spec(path@)),
            },
    {
        match self.map.get(path.as_str()) {
            Some(img) => {
                return Ok(raw::clone_display_image(img));
            },
            None => {},
        }
        match raw::decode_raw(path) {
            Ok(img) => {
                let stored = raw::clone_display_image(&img);
                proof {
                    assert(stored.wf());
                }
                self.map.insert(path.clone(), stored);
                proof {
                    assert forall|k: Seq<char>| self@.contains_key(k) implies (
                    #[trigger] self@[k]).wf() by {
                        if k != path@ {
                            assert(old(self)@.contains_key(k));
                            assert(self@[k] == old(self)@[k]);
                        }
                    }
                }
                Ok(img)
            },
            Err(e) => Err(e),
        }
    }
}

/// Once a path's image stands in the cache, every later request for
/// that path is a hit served from the store: with inserts serialized,
/// at most one decode per path ever reaches the cache.
pub proof fn law_render_cache_single_decode(
    m: Map<Seq<char>, DisplayImage>,
    path: Seq<char>,
    img: DisplayImage,
)
    ensures
        m.insert(path, img).contains_key(path),
        m.insert(path, img)[path] == img,
        m.insert(path, img).insert(path, img) == m.insert(path, img),
{
    assert(m.insert(path, img).insert(path, img) =~= m.insert(path, img));
}

} // verus!
