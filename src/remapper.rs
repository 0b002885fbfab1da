//! The compositor: a canvas, a registry of source images, and the patch
//! operation that draws one command onto the canvas.
use vstd::prelude::*;
use vstd::string::StringExecFns;
use crate::imaging::{grayscale, grayscale_of, overlay, overlay_of, resize_triangle, resized_of};
use crate::lattice::{Lattice, LatticeView};
use crate::range::{whole_pixels, Range};
use crate::raster::{in_rect, apply_mask, gradient, gradient_layer, masked_layer, warp_layer, warped_layer, Image};

verus! {

/// Why a patch was refused.
#[derive(Debug, Clone, PartialEq, Eq)]
pub enum RemapperError {
    /// No source image is registered under this key.
    SourceNotFound(String),
}

/// One patch request: draw the source registered under `source_key` into
/// `range`, optionally masked by the image under `mask_key` and warped through
/// `lattice`.
#[derive(Debug, Clone)]
pub struct RemapCommand {
    pub source_key: String,
    pub range: Range,
    pub mask_key: Option<String>,
    pub lattice: Option<Lattice>,
}

/// The ordered patch requests of a script run.
#[derive(Debug, Clone)]
pub struct RemapQueue {
    queue: Vec<RemapCommand>,
}

impl View for RemapQueue {
    type V = Seq<RemapCommand>;

    closed spec fn view(&self) -> Seq<RemapCommand> {
        self.queue@
    }
}

impl RemapQueue {
    pub fn new() -> (r: RemapQueue)
        ensures
            r@ == Seq::<RemapCommand>::empty(),
    {
        RemapQueue { queue: Vec::new() }
    }

    /// Appends a command at the end of the queue.
    pub fn push(&mut self, command: RemapCommand)
        ensures
            final(self)@ == old(self)@.push(command),
    {
        self.queue.push(command);
    }

    /// The commands, in the order in which they were pushed.
    pub fn commands(self) -> (r: Vec<RemapCommand>)
        ensures
            r@ == self@,
    {
        self.queue
    }
}

/// A source image and the key it is registered under.
struct Source {
    key: String,
    image: Image,
}

/// `a * b` pixels of four bytes fit in memory.
pub open spec fn fits(a: int, b: int) -> bool {
    a * b * 4 <= usize::MAX
}

fn fits_exec(a: u32, b: u32) -> (r: bool)
    ensures
        r == fits(a as int, b as int),
{
    proof {
        assert(a * b * 4 <= u32::MAX * u32::MAX * 4) by (nonlinear_arith);
    }
    (a as u128) * (b as u128) * 4 <= usize::MAX as u128
}

/// An image resized to `pw` by `ph`: an empty image, which has no pixels to
/// sample, gives a fully transparent layer.
pub open spec fn resized_layer(image: Image, pw: nat, ph: nat) -> Seq<u8> {
    if image.width == 0 || image.height == 0 {
        Seq::new(pw * ph * 4, |k: int| 0u8)
    } else {
        resized_of(image.pixels@, image.width as nat, image.height as nat, pw, ph)
    }
}

/// Resizes `image` as [`resized_layer`] says.
fn resize_layer(image: &Image, width: u32, height: u32) -> (r: Image)
    requires
        image.wf(),
        fits(width as int, height as int),
        fits(image.width as int, height as int),
    ensures
        r.width == width,
        r.height == height,
        r.wf(),
        r.pixels@ == resized_layer(*image, width as nat, height as nat),
{
    if image.width == 0 || image.height == 0 {
        let r = Image::new(width, height);
        assert(r.pixels@ =~= resized_layer(*image, width as nat, height as nat));
        r
    } else {
        resize_triangle(image, width, height)
    }
}

/// The layer that a patch composites: the source resized to `pw` by `ph`,
/// drawn through the lattice if there is one, each pixel scaled by the
/// grayscale of the equally resized mask if there is one.
pub open spec fn patch_layer(
    source: Image,
    mask: Option<Image>,
    lattice: Option<LatticeView>,
    pw: nat,
    ph: nat,
) -> Seq<u8> {
    let layer = resized_layer(source, pw, ph);
    let m = match mask {
        Some(mi) => Some(grayscale_of(resized_layer(mi, pw, ph), pw, ph)),
        None => None,
    };
    match lattice {
        Some(l) => warped_layer(layer, m, l, pw as int, ph as int),
        None => match m {
            Some(mm) => masked_layer(layer, mm),
            None => layer,
        },
    }
}

/// The optional lattice of a command, as its view.
pub open spec fn lattice_view(l: Option<Lattice>) -> Option<LatticeView> {
    match l {
        Some(v) => Some(v@),
        None => None,
    }
}

/// Owns the canvas and the registered source images.
pub struct Remapper {
    canvas: Image,
    sources: Vec<Source>,
}

impl RemapperError {
    /// A sentence that says what went wrong: that there is no image for the key.
    pub fn message(&self) -> (r: String)
        ensures
            match self {
                RemapperError::SourceNotFound(key) => r@ == "キー "@ + key@ + " の画像がありません"@,
            },
    {
        match self {
            RemapperError::SourceNotFound(key) => "キー ".to_owned().concat(key.as_str()).concat(
                " の画像がありません",
            ),
        }
    }
}

impl Remapper {
    /// The canvas is well formed, every source is well formed, and no two sources
    /// share a key.
    pub closed spec fn wf(&self) -> bool {
        &&& self.canvas.wf()
        &&& forall|i: int| 0 <= i < self.sources@.len() ==> (#[trigger] self.sources@[i].image).wf()
        &&& forall|i: int, j: int|
            0 <= i < self.sources@.len() && 0 <= j < self.sources@.len() && i != j
                ==> #[trigger] self.sources@[i].key@ != #[trigger] self.sources@[j].key@
    }

    /// The canvas, the destination of every patch.
    pub closed spec fn canvas(&self) -> Image {
        self.canvas
    }

    /// Some source is registered under `key`.
    pub closed spec fn has_source(&self, key: Seq<char>) -> bool {
        exists|i: int| 0 <= i < self.sources@.len() && #[trigger] self.sources@[i].key@ == key
    }

    /// The source registered under `key`.
    pub closed spec fn source(&self, key: Seq<char>) -> Image {
        self.sources@[choose|i: int| 0 <= i < self.sources@.len() && #[trigger] self.sources@[i].key@ == key].image
    }

    /// Both hold the same source under `k`, or neither holds one.
    pub open spec fn keeps_source(&self, other: &Remapper, k: Seq<char>) -> bool {
        &&& self.has_source(k) == other.has_source(k)
        &&& (other.has_source(k) ==> self.source(k) == other.source(k))
    }

    /// Both hold the same sources under the same keys.
    pub open spec fn same_sources(&self, other: &Remapper) -> bool {
        forall|k: Seq<char>|
            #[trigger] self.has_source(k) == other.has_source(k) && (self.has_source(k) ==> self.source(k)
                == other.source(k))
    }

    /// Pixel size and position of the rectangle of `command` on this canvas.
    pub open spec fn patch_rect(&self, command: RemapCommand) -> (nat, nat, nat, nat) {
        let s = command.range.scaled_view(self.canvas().width as int, self.canvas().height as int);
        (
            whole_pixels(s.width) as nat,
            whole_pixels(s.height) as nat,
            whole_pixels(s.x) as nat,
            whole_pixels(s.y) as nat,
        )
    }

    /// Canvas byte `k` lies in the rectangle that `command` covers.
    pub open spec fn in_patch(&self, command: RemapCommand, k: int) -> bool {
        let (pw, ph, px, py) = self.patch_rect(command);
        in_rect(k, self.canvas().width as int, px as int, py as int, pw as int, ph as int)
    }

    /// The mask image of `command`, if it names one.
    pub open spec fn mask_of(&self, command: RemapCommand) -> Option<Image> {
        match command.mask_key {
            Some(k) => Some(self.source(k@)),
            None => None,
        }
    }

    /// Every key that `command` names is registered.
    pub open spec fn has_all(&self, command: RemapCommand) -> bool {
        &&& self.has_source(command.source_key@)
        &&& (command.mask_key is Some ==> self.has_source(command.mask_key->0@))
    }

    /// The error for a command that names a key with no registered image: its
    /// source key if that one is missing, else its mask key.
    pub open spec fn missing_error(&self, command: RemapCommand) -> RemapperError {
        if !self.has_source(command.source_key@) {
            RemapperError::SourceNotFound(command.source_key)
        } else {
            RemapperError::SourceNotFound(command.mask_key->0)
        }
    }

    /// The images that `command` resizes fit in memory.
    pub open spec fn patch_fits(&self, command: RemapCommand) -> bool {
        let (pw, ph, px, py) = self.patch_rect(command);
        &&& fits(pw as int, ph as int)
        &&& (self.has_source(command.source_key@) ==> fits(
            self.source(command.source_key@).width as int,
            ph as int,
        ))
        &&& (command.mask_key is Some && self.has_source(command.mask_key->0@) ==> fits(
            self.source(command.mask_key->0@).width as int,
            ph as int,
        ))
    }

    /// The canvas bytes after `command` has been applied.
    pub open spec fn patched(&self, command: RemapCommand) -> Seq<u8> {
        self.patched_over(self.canvas().pixels@, command)
    }

    /// The canvas bytes after each of `commands` has been applied, in order.
    pub open spec fn patched_all(&self, commands: Seq<RemapCommand>) -> Seq<u8>
        decreases commands.len(),
    {
        if commands.len() == 0 {
            self.canvas().pixels@
        } else {
            self.patched_over(self.patched_all(commands.drop_last()), commands.last())
        }
    }

    /// Canvas bytes `pixels` (of a canvas of this size) after `command` has
    /// been applied with this registry.
    pub open spec fn patched_over(&self, pixels: Seq<u8>, command: RemapCommand) -> Seq<u8> {
        let (pw, ph, px, py) = self.patch_rect(command);
        overlay_of(
            pixels,
            self.canvas().width as nat,
            self.canvas().height as nat,
            patch_layer(
                self.source(command.source_key@),
                self.mask_of(command),
                lattice_view(command.lattice),
                pw,
                ph,
            ),
            pw,
            ph,
            px,
            py,
        )
    }

    /// A remapper over a transparent canvas of `width` by `height` pixels,
    /// holding the diagnostic gradient under `default_uv`.
    pub fn new(width: u32, height: u32) -> (r: Remapper)
        requires
            fits(width as int, height as int),
        ensures
            r.wf(),
            r.canvas().width == width,
            r.canvas().height == height,
            forall|k: int| 0 <= k < r.canvas().pixels@.len() ==> r.canvas().pixels@[k] == 0,
            r.has_source("default_uv"@),
            forall|k: Seq<char>| #[trigger] r.has_source(k) ==> k == "default_uv"@,
            r.source("default_uv"@).width == width,
            r.source("default_uv"@).height == height,
            r.source("default_uv"@).pixels@ == gradient_layer(width as int, height as int),
    {
        let canvas = Image::new(width, height);
        Self::with_defaults(canvas)
    }

    /// A remapper whose canvas starts as `base_image`, holding the diagnostic
    /// gradient of its size under `default_uv`.
    pub fn from_image(base_image: Image) -> (r: Remapper)
        requires
            base_image.wf(),
            fits(base_image.width as int, base_image.height as int),
        ensures
            r.wf(),
            r.canvas() == base_image,
            r.has_source("default_uv"@),
            forall|k: Seq<char>| #[trigger] r.has_source(k) ==> k == "default_uv"@,
            r.source("default_uv"@).width == base_image.width,
            r.source("default_uv"@).height == base_image.height,
            r.source("default_uv"@).pixels@ == gradient_layer(
                base_image.width as int,
                base_image.height as int,
            ),
    {
        Self::with_defaults(base_image)
    }

    fn with_defaults(canvas: Image) -> (r: Remapper)
        requires
            canvas.wf(),
            fits(canvas.width as int, canvas.height as int),
        ensures
            r.wf(),
            r.canvas() == canvas,
            r.has_source("default_uv"@),
            forall|k: Seq<char>| #[trigger] r.has_source(k) ==> k == "default_uv"@,
            r.source("default_uv"@).width == canvas.width,
            r.source("default_uv"@).height == canvas.height,
            r.source("default_uv"@).pixels@ == gradient_layer(canvas.width as int, canvas.height as int),
    {
        let mut remapper = Remapper { canvas, sources: Vec::new() };
        let ghost empty = remapper;
        assert(forall|k: Seq<char>| !#[trigger] empty.has_source(k));
        remapper.prepare_default_images();
        assert forall|k: Seq<char>| #[trigger] remapper.has_source(k) implies k == "default_uv"@ by {
            if k != "default_uv"@ {
                assert(remapper.keeps_source(&empty, k));
            }
        }
        remapper
    }

    /// Registers the diagnostic gradient, the size of the canvas, under `default_uv`.
    fn prepare_default_images(&mut self)
        requires
            old(self).wf(),
            fits(old(self).canvas().width as int, old(self).canvas().height as int),
        ensures
            final(self).wf(),
            final(self).canvas() == old(self).canvas(),
            final(self).has_source("default_uv"@),
            forall|k: Seq<char>|
                k != "default_uv"@ ==> #[trigger] final(self).keeps_source(old(self), k),
            final(self).source("default_uv"@).width == old(self).canvas().width,
            final(self).source("default_uv"@).height == old(self).canvas().height,
            final(self).source("default_uv"@).pixels@ == gradient_layer(
                old(self).canvas().width as int,
                old(self).canvas().height as int,
            ),
    {
        let image = gradient(self.canvas.width, self.canvas.height);
        self.insert_source("default_uv", image);
    }

    /// The canvas.
    pub fn base_image(&self) -> (r: &Image)
        ensures
            *r == self.canvas(),
    {
        &self.canvas
    }

    proof fn lemma_source_at(r: &Remapper, i: int)
        requires
            r.wf(),
            0 <= i < r.sources@.len(),
        ensures
            r.has_source(r.sources@[i].key@),
            r.source(r.sources@[i].key@) == r.sources@[i].image,
    {
        let k = r.sources@[i].key@;
        assert(r.sources@[i].key@ == k);
        let c = choose|j: int| 0 <= j < r.sources@.len() && #[trigger] r.sources@[j].key@ == k;
        assert(r.sources@[c].key@ == k);
    }

    /// A registry that keeps every entry of `before` in place, changing only
    /// images under `key` and appending only entries under `key`, keeps every
    /// other key's source.
    proof fn lemma_keeps_others(before: &Remapper, after: &Remapper, key: Seq<char>)
        requires
            before.wf(),
            after.wf(),
            before.sources@.len() <= after.sources@.len(),
            forall|j: int|
                0 <= j < before.sources@.len() ==> (#[trigger] after.sources@[j]).key@
                    == before.sources@[j].key@ && (before.sources@[j].key@ != key
                    ==> after.sources@[j].image == before.sources@[j].image),
            forall|j: int|
                before.sources@.len() <= j < after.sources@.len() ==> (
                #[trigger] after.sources@[j]).key@ == key,
        ensures
            forall|k: Seq<char>| k != key ==> #[trigger] after.keeps_source(before, k),
    {
        assert forall|k: Seq<char>| k != key implies #[trigger] after.keeps_source(before, k) by {
            if before.has_source(k) {
                let c = choose|j: int|
                    0 <= j < before.sources@.len() && #[trigger] before.sources@[j].key@ == k;
                assert(after.sources@[c].key@ == k);
                Self::lemma_source_at(before, c);
                Self::lemma_source_at(after, c);
            }
            if after.has_source(k) {
                let c = choose|j: int|
                    0 <= j < after.sources@.len() && #[trigger] after.sources@[j].key@ == k;
                assert(c < before.sources@.len());
                assert(before.sources@[c].key@ == k);
            }
        }
    }

    /// Position of the source registered under `key`.
    fn find(&self, key: &String) -> (r: Option<usize>)
        requires
            self.wf(),
        ensures
            match r {
                Some(i) => i < self.sources@.len() && self.sources@[i as int].key@ == key@
                    && self.has_source(key@) && self.source(key@) == self.sources@[i as int].image,
                None => !self.has_source(key@),
            },
    {
        let mut i: usize = 0;
        while i < self.sources.len()
            invariant
                self.wf(),
                i <= self.sources@.len(),
                forall|j: int| 0 <= j < i ==> #[trigger] self.sources@[j].key@ != key@,
            decreases self.sources@.len() - i,
        {
            if self.sources[i].key == *key {
                proof {
                    Self::lemma_source_at(self, i as int);
                }
                return Some(i);
            }
            i = i + 1;
        }
        None
    }

    /// Registers `image` under `key`, replacing any image already there.
    pub fn insert_source(&mut self, key: &str, image: Image)
        requires
            old(self).wf(),
            image.wf(),
        ensures
            final(self).wf(),
            final(self).canvas() == old(self).canvas(),
            final(self).has_source(key@),
            final(self).source(key@) == image,
            forall|k: Seq<char>| k != key@ ==> #[trigger] final(self).keeps_source(old(self), k),
    {
        let key_string = key.to_owned();
        let ghost before = *self;
        assert(before == *old(self));
        match self.find(&key_string) {
            Some(i) => {
                self.sources.set(i, Source { key: key_string, image });
                assert(self.wf()) by {
                    assert forall|a: int, b: int|
                        0 <= a < self.sources@.len() && 0 <= b < self.sources@.len() && a != b
                            implies #[trigger] self.sources@[a].key@ != #[trigger] self.sources@[b].key@ by {
                        assert(before.sources@[a].key@ != before.sources@[b].key@);
                    }
                }
                proof {
                    Self::lemma_keeps_others(&before, self, key@);
                }
                proof {
                    Self::lemma_source_at(self, i as int);
                }
            },
            None => {
                self.sources.push(Source { key: key_string, image });
                assert(self.wf()) by {
                    assert forall|a: int, b: int|
                        0 <= a < self.sources@.len() && 0 <= b < self.sources@.len() && a != b
                            implies #[trigger] self.sources@[a].key@ != #[trigger] self.sources@[b].key@ by {
                        if a < before.sources@.len() && b < before.sources@.len() {
                            assert(before.sources@[a].key@ != before.sources@[b].key@);
                        } else if a < before.sources@.len() {
                            assert(before.sources@[a].key@ != key@);
                        } else {
                            assert(before.sources@[b].key@ != key@);
                        }
                    }
                }
                let ghost n: int = self.sources@.len() - 1;
                proof {
                    Self::lemma_keeps_others(&before, self, key@);
                }
                proof {
                    Self::lemma_source_at(self, n);
                }
            },
        }
    }

    proof fn lemma_same_registry(a: &Remapper, b: &Remapper, command: RemapCommand)
        requires
            a.same_sources(b),
            a.canvas().width == b.canvas().width,
            a.canvas().height == b.canvas().height,
        ensures
            a.patch_fits(command) == b.patch_fits(command),
            a.has_all(command) == b.has_all(command),
            a.has_all(command) ==> forall|px: Seq<u8>|
                #[trigger] a.patched_over(px, command) == b.patched_over(px, command),
    {
        assert(a.has_source(command.source_key@) == b.has_source(command.source_key@));
        if command.mask_key is Some {
            assert(a.has_source(command.mask_key->0@) == b.has_source(command.mask_key->0@));
        }
    }

    /// Applies the commands of `queue` in order, stopping at the first one that
    /// names a key with no registered image; that one's error is returned and
    /// the commands before it stay applied.
    pub fn apply_queue(&mut self, queue: RemapQueue) -> (r: Result<(), RemapperError>)
        requires
            old(self).wf(),
            forall|i: int|
                0 <= i < queue@.len() ==> (old(self).has_all(#[trigger] queue@[i]) ==> old(
                    self,
                ).patch_fits(queue@[i])),
        ensures
            final(self).wf(),
            final(self).same_sources(old(self)),
            final(self).canvas().width == old(self).canvas().width,
            final(self).canvas().height == old(self).canvas().height,
            r is Ok <==> forall|i: int| 0 <= i < queue@.len() ==> old(self).has_all(#[trigger] queue@[i]),
            r is Ok ==> final(self).canvas().pixels@ == old(self).patched_all(queue@),
            r is Err ==> exists|n: int|
                0 <= n < queue@.len() && !old(self).has_all(#[trigger] queue@[n]) && r
                    == Err::<(), RemapperError>(old(self).missing_error(queue@[n])) && (forall|j: int|
                    0 <= j < n ==> old(self).has_all(#[trigger] queue@[j]))
                    && final(self).canvas().pixels@ == old(self).patched_all(queue@.take(n)),
    {
        let ghost start = *self;
        assert(start == *old(self));
        let ghost all = queue@;
        let mut rest = queue.commands();
        let total = rest.len();
        let mut i: usize = 0;
        assert(all.take(0) =~= Seq::<RemapCommand>::empty());
        while rest.len() > 0
            invariant
                start == *old(self),
                all == queue@,
                all.len() == total,
                self.wf(),
                self.same_sources(&start),
                self.canvas().width == start.canvas().width,
                self.canvas().height == start.canvas().height,
                i <= all.len(),
                rest@ == all.skip(i as int),
                forall|j: int|
                    0 <= j < all.len() ==> (start.has_all(#[trigger] all[j]) ==> start.patch_fits(
                        all[j],
                    )),
                forall|j: int| 0 <= j < i ==> start.has_all(#[trigger] all[j]),
                self.canvas().pixels@ == start.patched_all(all.take(i as int)),
            decreases rest@.len(),
        {
            let command = rest.remove(0);
            let ghost prev = *self;
            assert(command == all[i as int]);
            proof {
                Self::lemma_same_registry(&prev, &start, command);
            }
            let step = self.patch(command);
            proof {
                assert forall|k: Seq<char>| #[trigger] self.has_source(k) == start.has_source(k) && (
                self.has_source(k) ==> self.source(k) == start.source(k)) by {
                    assert(self.has_source(k) == prev.has_source(k));
                    assert(prev.has_source(k) == start.has_source(k));
                }
            }
            match step {
                Ok(()) => {},
                Err(e) => {
                    assert(self.canvas() == prev.canvas());
                    assert(!start.has_all(all[i as int]));
                    assert(prev.has_source(command.source_key@) == start.has_source(
                        command.source_key@,
                    ));
                    assert(prev.missing_error(command) == start.missing_error(command));
                    return Err(e);
                },
            }
            proof {
                let next = all.take(i as int + 1);
                assert(next.drop_last() =~= all.take(i as int));
                assert(next.last() == command);
                assert(self.canvas().pixels@ == prev.patched_over(prev.canvas().pixels@, command));
            }
            i = i + 1;
            assert(rest@ =~= all.skip(i as int));
        }
        assert(all.take(i as int) =~= all);
        Ok(())
    }

    /// Whether the images that `command` resizes fit in memory, so that
    /// [`Remapper::patch`] may be called with it.
    pub fn can_patch(&self, command: &RemapCommand) -> (r: bool)
        requires
            self.wf(),
        ensures
            r == self.patch_fits(*command),
    {
        let scaled = command.range.to_scaled(self.canvas.width, self.canvas.height);
        let pw = scaled.pixel_width();
        let ph = scaled.pixel_height();
        if !fits_exec(pw, ph) {
            return false;
        }
        match self.find(&command.source_key) {
            Some(i) => {
                if !fits_exec(self.sources[i].image.width, ph) {
                    return false;
                }
            },
            None => {},
        }
        match &command.mask_key {
            Some(k) => match self.find(k) {
                Some(i) => fits_exec(self.sources[i].image.width, ph),
                None => true,
            },
            None => true,
        }
    }

    /// Applies one command to the canvas: the source is resized to the
    /// command's rectangle, masked and warped as the command says, and
    /// alpha-composited onto the canvas at the rectangle's corner. A missing
    /// source or mask key is an error that leaves the canvas as it was.
    pub fn patch(&mut self, command: RemapCommand) -> (r: Result<(), RemapperError>)
        requires
            old(self).wf(),
            old(self).has_all(command) ==> old(self).patch_fits(command),
        ensures
            final(self).wf(),
            final(self).same_sources(old(self)),
            final(self).canvas().width == old(self).canvas().width,
            final(self).canvas().height == old(self).canvas().height,
            !old(self).has_source(command.source_key@) ==> r == Err::<(), RemapperError>(
                RemapperError::SourceNotFound(command.source_key),
            ),
            old(self).has_source(command.source_key@) && command.mask_key is Some
                && !old(self).has_source(command.mask_key->0@) ==> r == Err::<(), RemapperError>(
                RemapperError::SourceNotFound(command.mask_key->0),
            ),
            r is Ok <==> old(self).has_all(command),
            !old(self).has_all(command) ==> r == Err::<(), RemapperError>(
                old(self).missing_error(command),
            ),
            r is Ok ==> final(self).canvas().pixels@ == old(self).patched(command),
            forall|k: int|
                0 <= k < old(self).canvas().pixels@.len() && !old(self).in_patch(command, k)
                    ==> #[trigger] final(self).canvas().pixels@[k] == old(self).canvas().pixels@[k],
            r is Err ==> final(self).canvas() == old(self).canvas(),
    {
        let scaled = command.range.to_scaled(self.canvas.width, self.canvas.height);
        let pw = scaled.pixel_width();
        let ph = scaled.pixel_height();
        let px = scaled.pixel_x();
        let py = scaled.pixel_y();
        let si = match self.find(&command.source_key) {
            Some(i) => i,
            None => {
                return Err(RemapperError::SourceNotFound(command.source_key.clone()));
            },
        };
        let mask: Option<Vec<u8>> = match &command.mask_key {
            Some(k) => match self.find(k) {
                Some(mi) => {
                    assert(self.sources@[mi as int].image.wf());
                    let resized_mask = resize_layer(&self.sources[mi].image, pw, ph);
                    Some(grayscale(&resized_mask))
                },
                None => {
                    return Err(RemapperError::SourceNotFound(k.clone()));
                },
            },
            None => None,
        };
        assert(self.sources@[si as int].image.wf());
        let resized = resize_layer(&self.sources[si].image, pw, ph);
        let layer: Vec<u8> = match &command.lattice {
            Some(l) => warp_layer(&resized.pixels, &mask, l, pw, ph),
            None => match &mask {
                Some(m) => apply_mask(&resized.pixels, m),
                None => resized.pixels,
            },
        };
        let ghost before = *self;
        overlay(&mut self.canvas, &layer, pw, ph, px, py);
        assert(self.sources@ == before.sources@);
        Ok(())
    }
}

} // verus!
