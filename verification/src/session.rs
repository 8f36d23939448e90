//! The editing session of one caller: the working image, the parameters in
//! force, and the crop rectangle while one is being chosen. The session
//! serialises the calls into the engine: each call runs to its end before
//! the next begins, and its result takes the place of the image.

use vstd::prelude::*;
use crate::crop::{crop_result, CropOutcome, Rectangle};
use crate::engine::{sort_result, PixelSorter};
use crate::image::{Image, Raster};
use crate::key::{next_mode, SortMode};
use crate::params::{next_algorithm, SortError, SortingAlgorithm, SortingParameters};

verus! {

/// What the caller is doing.
#[derive(Debug, Clone, Copy, PartialEq, Eq, Structural)]
pub enum Phase {
    /// Choosing an image.
    Input,
    /// Changing the parameters of the sort.
    Edit,
    /// Choosing a crop rectangle.
    Crop,
}

/// A corner of the crop rectangle.
#[derive(Debug, Clone, Copy, PartialEq, Eq, Structural)]
pub enum HandlePosition {
    TopLeft,
    TopRight,
    BottomLeft,
    BottomRight,
}

/// What is being dragged.
#[derive(Debug, Clone, Copy, PartialEq, Eq, Structural)]
pub enum DragState {
    /// Nothing.
    Idle,
    /// One corner of the crop rectangle.
    DraggingHandle(HandlePosition),
    /// The whole crop rectangle.
    MovingCrop,
}

/// How far from the border of the image a fresh crop rectangle lies.
pub const CROP_MARGIN: i64 = 50;

/// The least distance that a dragged corner keeps from the opposite one.
pub const MIN_CROP_SIZE: i64 = 10;

/// The larger of two numbers.
pub open spec fn larger(a: int, b: int) -> int {
    if a >= b {
        a
    } else {
        b
    }
}

/// The smaller of two numbers.
pub open spec fn lesser(a: int, b: int) -> int {
    if a <= b {
        a
    } else {
        b
    }
}

/// `v` brought into the range of a 64-bit coordinate.
pub open spec fn saturated(v: int) -> int {
    if v < i64::MIN {
        i64::MIN as int
    } else if v > i64::MAX {
        i64::MAX as int
    } else {
        v
    }
}

/// The crop rectangle that is offered first: the image without a margin of
/// `CROP_MARGIN` pixels on every side.
pub open spec fn initial_crop(width: int, height: int) -> Rectangle {
    Rectangle {
        min_x: 50,
        min_y: 50,
        max_x: (width - 50) as i64,
        max_y: (height - 50) as i64,
    }
}

/// The rectangle after the corner `handle` was dragged to `(x, y)`. A top or
/// left edge follows the pointer, but not beyond the border of the image nor
/// closer than `MIN_CROP_SIZE` to the opposite edge; a bottom or right edge
/// likewise. Where both limits cannot be kept, the distance to the opposite
/// edge is.
pub open spec fn dragged(
    rect: Rectangle,
    handle: HandlePosition,
    x: int,
    y: int,
    width: int,
    height: int,
) -> Rectangle {
    let left = lesser(larger(x, 0), saturated(rect.max_x - 10)) as i64;
    let top = lesser(larger(y, 0), saturated(rect.max_y - 10)) as i64;
    match handle {
        HandlePosition::TopLeft => Rectangle { min_x: left, min_y: top, ..rect },
        HandlePosition::TopRight => Rectangle {
            min_y: top,
            max_x: larger(lesser(x, width), saturated(rect.min_x + 10)) as i64,
            ..rect
        },
        HandlePosition::BottomLeft => Rectangle {
            min_x: left,
            max_y: larger(lesser(y, height), saturated(rect.min_y + 10)) as i64,
            ..rect
        },
        HandlePosition::BottomRight => Rectangle {
            max_x: larger(lesser(x, width), saturated(rect.min_x + 10)) as i64,
            max_y: larger(lesser(y, height), saturated(rect.min_y + 10)) as i64,
            ..rect
        },
    }
}

/// The rectangle moved by `(dx, dy)` and cut off at the border of the
/// image: the upper left corner is not moved beyond the origin, the lower
/// right corner not beyond the far border.
pub open spec fn moved(rect: Rectangle, dx: int, dy: int, width: int, height: int) -> Rectangle {
    Rectangle {
        min_x: larger(saturated(rect.min_x + dx), 0) as i64,
        min_y: larger(saturated(rect.min_y + dy), 0) as i64,
        max_x: lesser(saturated(rect.max_x + dx), width) as i64,
        max_y: lesser(saturated(rect.max_y + dy), height) as i64,
    }
}

/// The sum of two coordinates, kept within the range of a coordinate.
fn add_saturating(a: i64, b: i64) -> (sum: i64)
    ensures
        sum == saturated(a + b),
{
    let wide: i128 = a as i128 + b as i128;
    if wide < i64::MIN as i128 {
        i64::MIN
    } else if wide > i64::MAX as i128 {
        i64::MAX
    } else {
        wide as i64
    }
}

fn larger_of(a: i64, b: i64) -> (m: i64)
    ensures
        m == larger(a as int, b as int),
{
    if a >= b {
        a
    } else {
        b
    }
}

fn lesser_of(a: i64, b: i64) -> (m: i64)
    ensures
        m == lesser(a as int, b as int),
{
    if a <= b {
        a
    } else {
        b
    }
}

impl Rectangle {
    /// The rectangle that is offered first for an image of the given
    /// dimensions.
    pub fn initial(width: u32, height: u32) -> (rect: Rectangle)
        ensures
            rect == initial_crop(width as int, height as int),
    {
        Rectangle {
            min_x: CROP_MARGIN,
            min_y: CROP_MARGIN,
            max_x: width as i64 - CROP_MARGIN,
            max_y: height as i64 - CROP_MARGIN,
        }
    }

    /// The rectangle after the corner `handle` was dragged to `(x, y)`, in
    /// an image of the given dimensions.
    pub fn drag_handle(&self, handle: HandlePosition, x: i64, y: i64, width: u32, height: u32) -> (rect:
        Rectangle)
        ensures
            rect == dragged(*self, handle, x as int, y as int, width as int, height as int),
    {
        let left: i64 = lesser_of(larger_of(x, 0), add_saturating(self.max_x, -MIN_CROP_SIZE));
        let top: i64 = lesser_of(larger_of(y, 0), add_saturating(self.max_y, -MIN_CROP_SIZE));
        let right: i64 = larger_of(
            lesser_of(x, width as i64),
            add_saturating(self.min_x, MIN_CROP_SIZE),
        );
        let bottom: i64 = larger_of(
            lesser_of(y, height as i64),
            add_saturating(self.min_y, MIN_CROP_SIZE),
        );
        match handle {
            HandlePosition::TopLeft => Rectangle {
                min_x: left,
                min_y: top,
                max_x: self.max_x,
                max_y: self.max_y,
            },
            HandlePosition::TopRight => Rectangle {
                min_x: self.min_x,
                min_y: top,
                max_x: right,
                max_y: self.max_y,
            },
            HandlePosition::BottomLeft => Rectangle {
                min_x: left,
                min_y: self.min_y,
                max_x: self.max_x,
                max_y: bottom,
            },
            HandlePosition::BottomRight => Rectangle {
                min_x: self.min_x,
                min_y: self.min_y,
                max_x: right,
                max_y: bottom,
            },
        }
    }

    /// The rectangle moved by `(dx, dy)` and cut off at the border of an
    /// image of the given dimensions.
    pub fn translate_within(&self, dx: i64, dy: i64, width: u32, height: u32) -> (rect: Rectangle)
        ensures
            rect == moved(*self, dx as int, dy as int, width as int, height as int),
    {
        Rectangle {
            min_x: larger_of(add_saturating(self.min_x, dx), 0),
            min_y: larger_of(add_saturating(self.min_y, dy), 0),
            max_x: lesser_of(add_saturating(self.max_x, dx), width as i64),
            max_y: lesser_of(add_saturating(self.max_y, dy), height as i64),
        }
    }
}

/// What became of a request to crop and sort.
#[derive(Debug, Clone, Copy, PartialEq, Eq, Structural)]
pub enum CropStatus {
    /// The session holds no image or no crop rectangle: nothing was done.
    NotReady,
    /// The rectangle selects nothing: the image was left as it is.
    NoOp,
    /// The sorted part has taken the place of the image.
    Committed,
    /// The sort failed: the image was left as it is.
    Failed(SortError),
}

/// What became of a request to sort the working image.
#[derive(Debug, Clone, Copy, PartialEq, Eq, Structural)]
pub enum SortStatus {
    /// The session holds no image: nothing was done.
    NotReady,
    /// The sorted image is the processed image now.
    Shown,
    /// The sort failed: the processed image was left as it is.
    Failed(SortError),
}

/// The mathematical model of a session.
pub ghost struct SessionModel {
    pub phase: Phase,
    pub original: Option<Raster>,
    pub processed: Option<Raster>,
    pub algorithm: SortingAlgorithm,
    pub params: SortingParameters,
    pub is_processing: bool,
    pub crop_rect: Option<Rectangle>,
    pub drag_state: DragState,
    pub tint_enabled: bool,
}

/// The session after a crop has returned `result`. A sorted part is
/// committed: it becomes the image and the processed image, the crop
/// rectangle is dropped, and the session is back in the edit phase. In
/// every other case the session keeps what it held. Either way no call is
/// in flight any more.
pub open spec fn after_crop(s: SessionModel, result: Result<Option<Raster>, SortError>) -> SessionModel {
    match result {
        Ok(Some(sorted)) => SessionModel {
            phase: Phase::Edit,
            original: Some(sorted),
            processed: Some(sorted),
            crop_rect: None,
            is_processing: false,
            ..s
        },
        _ => SessionModel { is_processing: false, ..s },
    }
}

/// The status that is reported for the result of a crop.
pub open spec fn status_of(result: Result<Option<Raster>, SortError>) -> CropStatus {
    match result {
        Ok(Some(_)) => CropStatus::Committed,
        Ok(None) => CropStatus::NoOp,
        Err(e) => CropStatus::Failed(e),
    }
}

/// The session after a sort of the working image has returned `result`:
/// a sorted image becomes the processed image, the working image stays.
/// Either way no call is in flight any more.
pub open spec fn after_sort(s: SessionModel, result: Result<Raster, SortError>) -> SessionModel {
    match result {
        Ok(sorted) => SessionModel { processed: Some(sorted), is_processing: false, ..s },
        Err(_) => SessionModel { is_processing: false, ..s },
    }
}

/// The status that is reported for the result of a sort.
pub open spec fn sort_status_of(result: Result<Raster, SortError>) -> SortStatus {
    match result {
        Ok(_) => SortStatus::Shown,
        Err(e) => SortStatus::Failed(e),
    }
}

/// The result of a sort as a model value.
pub open spec fn result_model(result: Result<Image, SortError>) -> Result<Raster, SortError> {
    match result {
        Ok(image) => Ok(image@),
        Err(e) => Err(e),
    }
}

/// The drag state after the pointer began to drag inside the rectangle: the
/// whole rectangle moves, unless a corner is being dragged already.
pub open spec fn after_crop_grabbed(state: DragState) -> DragState {
    if state == DragState::Idle {
        DragState::MovingCrop
    } else {
        state
    }
}

/// The rectangle as a model value of an outcome.
pub open spec fn outcome_model(result: Result<CropOutcome, SortError>) -> Result<
    Option<Raster>,
    SortError,
> {
    match result {
        Ok(outcome) => Ok(outcome@),
        Err(e) => Err(e),
    }
}

/// One editing session.
#[derive(Debug)]
pub struct EditSession {
    pub current_phase: Phase,
    /// The working image: what every sort starts from.
    pub original_image: Option<Image>,
    /// The last result, as it is shown.
    pub processed_image: Option<Image>,
    pub current_algorithm: SortingAlgorithm,
    pub sorting_params: SortingParameters,
    /// Whether a call into the engine is in flight.
    pub is_processing: bool,
    /// The crop rectangle, in pixels of the working image.
    pub crop_rect: Option<Rectangle>,
    pub drag_state: DragState,
    pub tint_enabled: bool,
}

/// The model of an image that may be missing.
pub open spec fn image_model(image: Option<Image>) -> Option<Raster> {
    match image {
        Some(img) => Some(img@),
        None => None,
    }
}

impl View for EditSession {
    type V = SessionModel;

    open spec fn view(&self) -> SessionModel {
        SessionModel {
            phase: self.current_phase,
            original: image_model(self.original_image),
            processed: image_model(self.processed_image),
            algorithm: self.current_algorithm,
            params: self.sorting_params,
            is_processing: self.is_processing,
            crop_rect: self.crop_rect,
            drag_state: self.drag_state,
            tint_enabled: self.tint_enabled,
        }
    }
}

impl EditSession {
    /// A session in the input phase, with no image, the horizontal
    /// algorithm and the default parameters.
    pub fn new() -> (session: EditSession)
        ensures
            session@ == (SessionModel {
                phase: Phase::Input,
                original: None,
                processed: None,
                algorithm: SortingAlgorithm::Horizontal,
                params: SortingParameters {
                    threshold: 50,
                    interval: 10,
                    sort_mode: SortMode::Brightness,
                    color_tint: 0,
                },
                is_processing: false,
                crop_rect: None,
                drag_state: DragState::Idle,
                tint_enabled: false,
            }),
    {
        EditSession {
            current_phase: Phase::Input,
            original_image: None,
            processed_image: None,
            current_algorithm: SortingAlgorithm::Horizontal,
            sorting_params: SortingParameters::default(),
            is_processing: false,
            crop_rect: None,
            drag_state: DragState::Idle,
            tint_enabled: false,
        }
    }

    /// Steps to the next algorithm of the cycle.
    pub fn cycle_algorithm(&mut self)
        ensures
            final(self)@ == (SessionModel {
                algorithm: next_algorithm(old(self)@.algorithm),
                ..old(self)@
            }),
    {
        self.current_algorithm = self.current_algorithm.next();
    }

    /// Steps to the next sort mode of the cycle.
    pub fn cycle_sort_mode(&mut self)
        ensures
            final(self)@ == (SessionModel {
                params: SortingParameters {
                    sort_mode: next_mode(old(self)@.params.sort_mode),
                    ..old(self)@.params
                },
                ..old(self)@
            }),
    {
        self.sorting_params.sort_mode = self.sorting_params.sort_mode.next();
    }

    /// Sets the threshold.
    pub fn set_threshold(&mut self, threshold: u32)
        ensures
            final(self)@ == (SessionModel {
                params: SortingParameters { threshold, ..old(self)@.params },
                ..old(self)@
            }),
    {
        self.sorting_params.threshold = threshold;
    }

    /// Sets the angle of the tint. The first angle above zero switches the
    /// tint on; it then stays on.
    pub fn set_color_tint(&mut self, degrees: u32)
        ensures
            final(self)@ == (SessionModel {
                params: SortingParameters { color_tint: degrees, ..old(self)@.params },
                tint_enabled: old(self)@.tint_enabled || degrees > 0,
                ..old(self)@
            }),
    {
        if !self.tint_enabled && degrees > 0 {
            self.tint_enabled = true;
        }
        self.sorting_params.color_tint = degrees;
    }

    /// Enters the crop phase, with no rectangle chosen yet.
    pub fn begin_crop(&mut self)
        ensures
            final(self)@ == (SessionModel { phase: Phase::Crop, crop_rect: None, ..old(self)@ }),
    {
        self.current_phase = Phase::Crop;
        self.crop_rect = None;
    }

    /// Leaves the crop phase without cropping.
    pub fn cancel_crop(&mut self)
        ensures
            final(self)@ == (SessionModel { phase: Phase::Edit, crop_rect: None, ..old(self)@ }),
    {
        self.current_phase = Phase::Edit;
        self.crop_rect = None;
    }

    /// The crop rectangle; where none is chosen yet, the session takes the
    /// one that is offered first for an image of the given dimensions.
    pub fn crop_rect_or_initial(&mut self, width: u32, height: u32) -> (rect: Rectangle)
        ensures
            rect == match old(self)@.crop_rect {
                Some(chosen) => chosen,
                None => initial_crop(width as int, height as int),
            },
            final(self)@ == (SessionModel { crop_rect: Some(rect), ..old(self)@ }),
    {
        let rect: Rectangle = match self.crop_rect {
            Some(chosen) => chosen,
            None => Rectangle::initial(width, height),
        };
        self.crop_rect = Some(rect);
        rect
    }

    /// The pointer began to drag the corner `handle`.
    pub fn grab_handle(&mut self, handle: HandlePosition)
        ensures
            final(self)@ == (SessionModel {
                drag_state: DragState::DraggingHandle(handle),
                ..old(self)@
            }),
    {
        self.drag_state = DragState::DraggingHandle(handle);
    }

    /// The pointer, dragging the corner `handle`, is at `(x, y)` of an image
    /// of the given dimensions. The rectangle follows if that corner is the
    /// one that was grabbed and a rectangle is chosen.
    pub fn drag_handle_to(&mut self, handle: HandlePosition, x: i64, y: i64, width: u32, height: u32)
        ensures
            final(self)@ == (SessionModel {
                crop_rect: match old(self)@.crop_rect {
                    Some(rect) if old(self)@.drag_state == DragState::DraggingHandle(handle) => Some(
                        dragged(rect, handle, x as int, y as int, width as int, height as int),
                    ),
                    other => other,
                },
                ..old(self)@
            }),
    {
        if self.drag_state == DragState::DraggingHandle(handle) {
            if let Some(rect) = self.crop_rect {
                self.crop_rect = Some(rect.drag_handle(handle, x, y, width, height));
            }
        }
    }

    /// The pointer began to drag inside the rectangle: the whole rectangle
    /// moves, unless something is being dragged already.
    pub fn grab_crop(&mut self)
        ensures
            final(self)@ == (SessionModel {
                drag_state: after_crop_grabbed(old(self)@.drag_state),
                ..old(self)@
            }),
    {
        if self.drag_state == DragState::Idle {
            self.drag_state = DragState::MovingCrop;
        }
    }

    /// The pointer, dragging inside the rectangle, has moved by `(dx, dy)`
    /// in an image of the given dimensions. The rectangle follows if it is
    /// the whole rectangle that was grabbed.
    pub fn move_crop_by(&mut self, dx: i64, dy: i64, width: u32, height: u32)
        ensures
            final(self)@ == (SessionModel {
                crop_rect: match old(self)@.crop_rect {
                    Some(rect) if old(self)@.drag_state == DragState::MovingCrop => Some(
                        moved(rect, dx as int, dy as int, width as int, height as int),
                    ),
                    other => other,
                },
                ..old(self)@
            }),
    {
        if self.drag_state == DragState::MovingCrop {
            if let Some(rect) = self.crop_rect {
                self.crop_rect = Some(rect.translate_within(dx, dy, width, height));
            }
        }
    }

    /// The pointer was released: nothing is dragged any more.
    pub fn release_pointer(&mut self)
        ensures
            final(self)@ == (SessionModel { drag_state: DragState::Idle, ..old(self)@ }),
    {
        self.drag_state = DragState::Idle;
    }

    /// Takes in the result of a sort of the working image.
    pub fn show_sorted(&mut self, result: Result<Image, SortError>) -> (status: SortStatus)
        ensures
            final(self)@ == after_sort(old(self)@, result_model(result)),
            status == sort_status_of(result_model(result)),
    {
        self.is_processing = false;
        match result {
            Ok(sorted) => {
                self.processed_image = Some(sorted);
                SortStatus::Shown
            },
            Err(e) => SortStatus::Failed(e),
        }
    }

    /// Sorts the working image with the algorithm and the parameters of the
    /// session; the result becomes the processed image. The working image
    /// stays as it is, so that the next sort starts from it again.
    ///
    /// Without a working image nothing happens. Where the sort fails, the
    /// processed image stays as it is.
    pub fn apply_pixel_sort(&mut self, sorter: &PixelSorter) -> (status: SortStatus)
        ensures
            old(self)@.original is None ==> status == SortStatus::NotReady && final(self)@ == old(
                self,
            )@,
            old(self)@.original is Some ==> ({
                let expected = sort_result(
                    old(self)@.original->Some_0,
                    old(self)@.algorithm,
                    old(self)@.params,
                    true,
                );
                let failed = Err::<Raster, SortError>(SortError::AllocationFailure);
                ||| status == sort_status_of(expected) && final(self)@ == after_sort(
                    old(self)@,
                    expected,
                )
                ||| expected is Ok && status == sort_status_of(failed) && final(self)@
                    == after_sort(old(self)@, failed)
            }),
    {
        let result: Result<Image, SortError> = match &self.original_image {
            Some(original) => sorter.sort_pixels(
                original,
                self.current_algorithm,
                &self.sorting_params,
            ),
            None => {
                return SortStatus::NotReady;
            },
        };
        self.is_processing = true;
        self.show_sorted(result)
    }

    /// Takes a new working image and enters the edit phase. What was shown
    /// before, and any crop rectangle, are dropped.
    pub fn load_image(&mut self, image: Image)
        ensures
            final(self)@ == (SessionModel {
                phase: Phase::Edit,
                original: Some(image@),
                processed: None,
                crop_rect: None,
                drag_state: DragState::Idle,
                ..old(self)@
            }),
    {
        self.original_image = Some(image);
        self.processed_image = None;
        self.crop_rect = None;
        self.drag_state = DragState::Idle;
        self.current_phase = Phase::Edit;
    }

    /// Makes the processed image the working image, so that the next sort
    /// works on what this one produced. Without a processed image nothing
    /// happens.
    pub fn continue_from_processed(&mut self)
        ensures
            final(self)@ == (SessionModel {
                original: match old(self)@.processed {
                    Some(shown) => Some(shown),
                    None => old(self)@.original,
                },
                ..old(self)@
            }),
    {
        let copy: Option<Image> = match &self.processed_image {
            Some(shown) => Some(shown.duplicate()),
            None => None,
        };
        if let Some(image) = copy {
            self.original_image = Some(image);
        }
    }

    /// Drops the images and returns to the input phase.
    pub fn start_new(&mut self)
        ensures
            final(self)@ == (SessionModel {
                phase: Phase::Input,
                original: None,
                processed: None,
                crop_rect: None,
                drag_state: DragState::Idle,
                ..old(self)@
            }),
    {
        self.original_image = None;
        self.processed_image = None;
        self.crop_rect = None;
        self.drag_state = DragState::Idle;
        self.current_phase = Phase::Input;
    }

    /// Takes in the result of a crop: a sorted part is committed as the new
    /// working image, anything else leaves the session with what it held.
    pub fn commit_crop(&mut self, result: Result<CropOutcome, SortError>) -> (status: CropStatus)
        ensures
            final(self)@ == after_crop(old(self)@, outcome_model(result)),
            status == status_of(outcome_model(result)),
    {
        self.is_processing = false;
        match result {
            Ok(CropOutcome::Sorted(sorted)) => {
                let shown: Image = sorted.duplicate();
                self.original_image = Some(sorted);
                self.processed_image = Some(shown);
                self.crop_rect = None;
                self.current_phase = Phase::Edit;
                CropStatus::Committed
            },
            Ok(CropOutcome::NoOp) => CropStatus::NoOp,
            Err(e) => CropStatus::Failed(e),
        }
    }

    /// Crops the working image to the crop rectangle, sorts the part with
    /// the algorithm and the parameters of the session, and commits the
    /// result: the sorted part becomes the working image, and the session
    /// returns to the edit phase. The image from before the crop is gone.
    ///
    /// Without a working image or a crop rectangle nothing happens. Where
    /// the rectangle selects nothing, or the sort fails, the session keeps
    /// its image, its rectangle and its phase.
    pub fn apply_crop_and_sort(&mut self, sorter: &PixelSorter) -> (status: CropStatus)
        ensures
            old(self)@.original is None || old(self)@.crop_rect is None ==> status
                == CropStatus::NotReady && final(self)@ == old(self)@,
            old(self)@.original is Some && old(self)@.crop_rect is Some ==> ({
                let expected = crop_result(
                    old(self)@.original->Some_0,
                    old(self)@.crop_rect->Some_0,
                    old(self)@.algorithm,
                    old(self)@.params,
                    true,
                );
                let failed = Err::<Option<Raster>, SortError>(SortError::AllocationFailure);
                ||| status == status_of(expected) && final(self)@ == after_crop(
                    old(self)@,
                    expected,
                )
                ||| expected matches Ok(Some(_)) && status == status_of(failed) && final(self)@
                    == after_crop(old(self)@, failed)
            }),
    {
        let rect: Rectangle = match self.crop_rect {
            Some(rect) => rect,
            None => {
                return CropStatus::NotReady;
            },
        };
        let result: Result<CropOutcome, SortError> = match &self.original_image {
            Some(original) => sorter.crop_and_sort(
                original,
                &rect,
                self.current_algorithm,
                &self.sorting_params,
            ),
            None => {
                return CropStatus::NotReady;
            },
        };
        self.is_processing = true;
        self.commit_crop(result)
    }
}

} // verus!
