use vstd::prelude::*;
use vstd::string::StringExecFns;

use crate::display::{find_screen_by_id, first_screen_such, is_first_primary, is_first_with_id};
use crate::error::ScreenshotError;
use crate::geometry::Rect;
use crate::types::{
    CaptureArea, CaptureTarget, ScreenCaptureInfo, ScreenId, ScreenInfo, WindowId, WindowInfo,
    WindowLayoutInfo,
};
use crate::window::{find_layout, find_window, lemma_first_window_exists, spec_find_window};

verus! {

/// The Windows Graphics Capture backend.
#[derive(Debug, Default, Clone, Copy)]
pub struct WgcCapture;

/// The area a request keeps when it needs no scaling: the whole target for `Full`, the given
/// rectangle for `Physical`. A `Logical` area is scaled by the screen's fractional scale
/// factor and gets `None` here.
pub fn unscaled_area(area: CaptureArea, full_area: Rect) -> (r: Option<Rect>)
    ensures
        area is Full ==> r == Some(full_area),
        area matches CaptureArea::Physical(rect) ==> r == Some(rect),
        area is Logical ==> r is None,
{
    match area {
        CaptureArea::Full => Some(full_area),
        CaptureArea::Physical(rect) => Some(rect),
        CaptureArea::Logical(_) => None,
    }
}

impl WgcCapture {
    /// A capture of the whole of each screen, in the order of the screens.
    pub fn screen_capture_infos(&self, screens: Vec<ScreenInfo>) -> (r: Vec<ScreenCaptureInfo>)
        ensures
            r@.len() == screens@.len(),
            forall|k: int|
                0 <= k < r@.len() ==> {
                    &&& (#[trigger] r@[k]).screen_info == screens@[k]
                    &&& r@[k].x == 0 && r@[k].y == 0
                    &&& r@[k].width == screens@[k].width && r@[k].height == screens@[k].height
                    &&& r@[k].screen_capture_type == crate::types::ScreenCaptureType::Screen
                    &&& r@[k].window_info is None
                },
    {
        let mut infos: Vec<ScreenCaptureInfo> = Vec::new();
        let mut i: usize = 0;
        while i < screens.len()
            invariant
                0 <= i <= screens@.len(),
                infos@.len() == i,
                forall|k: int|
                    0 <= k < i ==> {
                        &&& (#[trigger] infos@[k]).screen_info == screens@[k]
                        &&& infos@[k].x == 0 && infos@[k].y == 0
                        &&& infos@[k].width == screens@[k].width && infos@[k].height
                            == screens@[k].height
                        &&& infos@[k].screen_capture_type
                            == crate::types::ScreenCaptureType::Screen
                        &&& infos@[k].window_info is None
                    },
            decreases screens@.len() - i,
        {
            infos.push(ScreenCaptureInfo::for_screen(screens[i].clone()));
            i = i + 1;
        }
        infos
    }

    /// The capture at position `index`; `MonitorNotFound` past the end.
    pub fn screen_capture_info_at(&self, infos: &Vec<ScreenCaptureInfo>, index: usize) -> (r:
        Result<ScreenCaptureInfo, ScreenshotError>)
        ensures
            r is Ok <==> index < infos@.len(),
            r matches Ok(info) ==> info == infos@[index as int],
            r matches Err(e) ==> e is MonitorNotFound,
    {
        if index < infos.len() {
            Ok(infos[index].clone())
        } else {
            Err(ScreenshotError::MonitorNotFound)
        }
    }
}

/// The capture methods a manager can be set to.
pub open spec fn supported_method_names() -> Seq<Seq<char>> {
    seq!["自动"@, "WGC"@]
}

pub open spec fn is_supported_method(name: Seq<char>) -> bool {
    supported_method_names().contains(name)
}

/// Chooses how screens and windows are captured; its capture method is always one of the
/// supported ones.
pub struct ScreenCaptureManager {
    capture_method_name: String,
    wgc_capture: WgcCapture,
}

/// A capture target once found among the current screens and windows: the screen it is on,
/// the window (for a window target), and the area that covers the whole target.
#[derive(Debug)]
pub struct ResolvedTarget {
    pub screen: ScreenInfo,
    pub window: Option<WindowInfo>,
    pub full_area: Rect,
}

/// The first primary screen, else the first screen at all.
pub open spec fn spec_primary_screen(screens: Seq<ScreenInfo>) -> Option<ScreenInfo> {
    if exists|k: int| 0 <= k < screens.len() && (#[trigger] screens[k]).is_primary {
        Some(
            screens[choose|k: int| #[trigger] is_first_primary(screens, k)],
        )
    } else if screens.len() > 0 {
        Some(screens[0])
    } else {
        None
    }
}

/// The screen of `window`: the listed screen with the window's screen id, else the primary
/// screen.
pub open spec fn spec_screen_for_window(window: WindowInfo, screens: Seq<ScreenInfo>) -> Option<
    ScreenInfo,
> {
    match window.screen_id {
        Some(id) => if exists|k: int| 0 <= k < screens.len() && (#[trigger] screens[k]).id == id {
            Some(screens[choose|k: int| #[trigger] is_first_with_id(screens, k, id)])
        } else {
            spec_primary_screen(screens)
        },
        None => spec_primary_screen(screens),
    }
}

/// The target for the window `id`: the first listed window with that id, on its screen,
/// with its whole area; `WindowNotFound` without such a window, `MonitorNotFound` without a
/// screen for it.
pub open spec fn spec_window_target(
    id: WindowId,
    screens: Seq<ScreenInfo>,
    windows: Seq<WindowInfo>,
) -> Result<ResolvedTarget, ScreenshotError> {
    match spec_find_window(windows, id) {
        None => Err(ScreenshotError::WindowNotFound(arbitrary())),
        Some(w) => match spec_screen_for_window(w, screens) {
            None => Err(ScreenshotError::MonitorNotFound),
            Some(s) => Ok(
                ResolvedTarget {
                    screen: s,
                    window: Some(w),
                    full_area: Rect {
                        left: 0,
                        top: 0,
                        right: w.rect.spec_width() as i32,
                        bottom: w.rect.spec_height() as i32,
                    },
                },
            ),
        },
    }
}

/// The two results agree, messages of errors aside.
pub open spec fn same_outcome<T>(a: Result<T, ScreenshotError>, b: Result<T, ScreenshotError>) -> bool {
    match (a, b) {
        (Ok(x), Ok(y)) => x == y,
        (Err(ScreenshotError::WindowNotFound(_)), Err(ScreenshotError::WindowNotFound(_))) => true,
        (Err(ScreenshotError::MonitorNotFound), Err(ScreenshotError::MonitorNotFound)) => true,
        _ => false,
    }
}

/// The primary screen is the first listed screen marked primary; where no screen is marked
/// primary it is the first listed screen, and there is none only when no screen is listed.
pub proof fn lemma_primary_screen_is_first_primary(screens: Seq<ScreenInfo>)
    ensures
        (exists|k: int| 0 <= k < screens.len() && (#[trigger] screens[k]).is_primary) ==> (
        spec_primary_screen(screens) matches Some(s) && exists|k: int|
            #![trigger screens[k]]
            0 <= k < screens.len() && screens[k] == s && s.is_primary && forall|j: int|
                0 <= j < k ==> !(#[trigger] screens[j]).is_primary),
        (forall|k: int| 0 <= k < screens.len() ==> !(#[trigger] screens[k]).is_primary)
            && screens.len() > 0 ==> spec_primary_screen(screens) == Some(screens[0]),
        spec_primary_screen(screens) is None <==> screens.len() == 0,
{
    if exists|k: int| 0 <= k < screens.len() && (#[trigger] screens[k]).is_primary {
        let p = |x: ScreenInfo| x.is_primary;
        let k0 = choose|k: int| 0 <= k < screens.len() && (#[trigger] screens[k]).is_primary;
        lemma_first_screen_exists(screens, k0, p);
        let k1 = choose|k: int| first_screen_such(screens, k, p);
        assert(screens[k1].is_primary);
        assert forall|j: int| 0 <= j < k1 implies !(#[trigger] screens[j]).is_primary by {
            assert(!p(screens[j]));
        }
        assert(is_first_primary(screens, k1));
        let k = choose|k: int| #[trigger] is_first_primary(screens, k);
        lemma_first_screen_unique(screens, k, k1, p);
    }
}

/// The screen of a window is the first listed screen with the window's screen id; where the
/// window names no screen, or no listed screen has that id, it is the primary screen.
pub proof fn lemma_screen_for_window_by_id(window: WindowInfo, screens: Seq<ScreenInfo>)
    ensures
        window.screen_id is Some && (exists|k: int|
            0 <= k < screens.len() && (#[trigger] screens[k]).id == window.screen_id->0)
            ==> (spec_screen_for_window(window, screens) matches Some(s) && exists|k: int|
            #![trigger screens[k]]
            0 <= k < screens.len() && screens[k] == s && s.id == window.screen_id->0 && forall|
                j: int,
            |
                0 <= j < k ==> (#[trigger] screens[j]).id != window.screen_id->0),
        (window.screen_id is None || forall|k: int|
            0 <= k < screens.len() ==> (#[trigger] screens[k]).id != window.screen_id->0)
            ==> spec_screen_for_window(window, screens) == spec_primary_screen(screens),
{
    if let Some(id) = window.screen_id {
        if exists|k: int| 0 <= k < screens.len() && (#[trigger] screens[k]).id == id {
            let p = |x: ScreenInfo| x.id == id;
            let k0 = choose|k: int| 0 <= k < screens.len() && (#[trigger] screens[k]).id == id;
            lemma_first_screen_exists(screens, k0, p);
            let k1 = choose|k: int| first_screen_such(screens, k, p);
            assert(screens[k1].id == id);
            assert forall|j: int| 0 <= j < k1 implies (#[trigger] screens[j]).id != id by {
                assert(!p(screens[j]));
            }
            assert(is_first_with_id(screens, k1, id));
            let k = choose|k: int| #[trigger] is_first_with_id(screens, k, id);
            lemma_first_screen_unique(screens, k, k1, p);
        }
    }
}

proof fn lemma_first_screen_exists(screens: Seq<ScreenInfo>, k0: int, p: spec_fn(ScreenInfo) -> bool)
    requires
        0 <= k0 < screens.len(),
        p(screens[k0]),
    ensures
        exists|k: int| first_screen_such(screens, k, p),
    decreases k0,
{
    if exists|j: int| 0 <= j < k0 && p(#[trigger] screens[j]) {
        let j = choose|j: int| 0 <= j < k0 && p(#[trigger] screens[j]);
        lemma_first_screen_exists(screens, j, p);
    } else {
        assert(first_screen_such(screens, k0, p));
    }
}

proof fn lemma_first_screen_unique(
    screens: Seq<ScreenInfo>,
    k1: int,
    k2: int,
    p: spec_fn(ScreenInfo) -> bool,
)
    requires
        first_screen_such(screens, k1, p),
        first_screen_such(screens, k2, p),
    ensures
        k1 == k2,
{
    if k1 < k2 {
        assert(!p(screens[k1]));
    }
    if k2 < k1 {
        assert(!p(screens[k2]));
    }
}

/// The decimal digit `d` (0 to 9) as a character.
pub open spec fn decimal_digit(d: nat) -> char {
    (48 + d) as char
}

/// The decimal digits of `n`, most significant first, without sign or leading zeros.
pub open spec fn decimal_text(n: nat) -> Seq<char>
    decreases n,
{
    if n < 10 {
        seq![decimal_digit(n)]
    } else {
        decimal_text(n / 10).push(decimal_digit(n % 10))
    }
}

/// The text by which a missing window is reported: `WindowId(<id in decimal>)`.
pub open spec fn window_id_text(id: WindowId) -> Seq<char> {
    "WindowId("@ + decimal_text(id.0 as nat) + ")"@
}

/// The character of the decimal digit `d`.
fn digit_str(d: u8) -> (r: &'static str)
    requires
        d < 10,
    ensures
        r@ == seq![decimal_digit(d as nat)],
{
    proof {
        reveal_strlit("0");
        reveal_strlit("1");
        reveal_strlit("2");
        reveal_strlit("3");
        reveal_strlit("4");
        reveal_strlit("5");
        reveal_strlit("6");
        reveal_strlit("7");
        reveal_strlit("8");
        reveal_strlit("9");
    }
    let r = match d {
        0 => "0",
        1 => "1",
        2 => "2",
        3 => "3",
        4 => "4",
        5 => "5",
        6 => "6",
        7 => "7",
        8 => "8",
        _ => "9",
    };
    assert(r@ =~= seq![decimal_digit(d as nat)]);
    r
}

/// The decimal digits of `n`, without sign or leading zeros.
fn decimal_string(n: u64) -> (r: String)
    ensures
        r@ == decimal_text(n as nat),
{
    // Digits are found least significant first; `digits[k]` is the k-th from the right.
    let mut digits: Vec<u8> = Vec::new();
    let mut m: u64 = n;
    let ghost mut tail: Seq<char> = Seq::empty();
    loop
        invariant_except_break
            m > 0 || digits@.len() == 0,
            decimal_text(n as nat) == decimal_text(m as nat) + tail,
        invariant
            tail.len() == digits@.len(),
            forall|k: int|
                0 <= k < digits@.len() ==> digits@[k] < 10 && tail[tail.len() - 1 - k]
                    == decimal_digit(#[trigger] digits@[k] as nat),
        ensures
            m == 0,
            decimal_text(n as nat) == tail,
            tail.len() == digits@.len(),
            tail.len() >= 1,
            forall|k: int|
                0 <= k < digits@.len() ==> digits@[k] < 10 && tail[tail.len() - 1 - k]
                    == decimal_digit(#[trigger] digits@[k] as nat),
        decreases m,
    {
        let d = (m % 10) as u8;
        let ghost old_tail = tail;
        let ghost old_digits = digits@;
        proof {
            if m >= 10 {
                assert(decimal_text(m as nat) == decimal_text((m / 10) as nat).push(
                    decimal_digit((m % 10) as nat),
                ));
            } else {
                assert(decimal_text(m as nat) == seq![decimal_digit(m as nat)]);
            }
            tail = seq![decimal_digit(d as nat)] + tail;
        }
        digits.push(d);
        proof {
            assert forall|k: int|
                0 <= k < digits@.len() implies digits@[k] < 10 && tail[tail.len() - 1 - k]
                == decimal_digit(#[trigger] digits@[k] as nat) by {
                if k < old_digits.len() {
                    assert(digits@[k] == old_digits[k]);
                    assert(tail[tail.len() - 1 - k] == old_tail[old_tail.len() - 1 - k]);
                }
            }
        }
        if m < 10 {
            proof {
                assert(decimal_text(n as nat) =~= tail);
            }
            m = 0;
            break;
        }
        proof {
            assert(decimal_text(n as nat) =~= decimal_text((m / 10) as nat) + tail);
        }
        m = m / 10;
    }
    let mut text = String::from_str("");
    proof {
        reveal_strlit("");
    }
    let mut i: usize = digits.len();
    while i > 0
        invariant
            0 <= i <= digits@.len(),
            tail.len() == digits@.len(),
            forall|k: int|
                0 <= k < digits@.len() ==> digits@[k] < 10 && tail[tail.len() - 1 - k]
                    == decimal_digit(#[trigger] digits@[k] as nat),
            text@ == tail.take(tail.len() - i),
        decreases i,
    {
        i = i - 1;
        let ghost before = text@;
        let d = digits[i];
        text.append(digit_str(d));
        proof {
            assert(tail[tail.len() - 1 - i] == decimal_digit(digits@[i as int] as nat));
            assert(text@ =~= tail.take(tail.len() - i));
        }
    }
    assert(tail.take(tail.len() as int) =~= tail);
    text
}

/// The text `WindowId(<id>)` by which a missing window is reported.
fn window_id_message(id: WindowId) -> (r: String)
    ensures
        r@ == window_id_text(id),
{
    let digits = decimal_string(id.0);
    let mut msg = String::from_str("WindowId(");
    msg.append(digits.as_str());
    msg.append(")");
    msg
}

impl ScreenCaptureManager {
    #[verifier::type_invariant]
    spec fn method_supported(self) -> bool {
        is_supported_method(self.capture_method_name@)
    }

    /// The capture method the manager is set to.
    pub closed spec fn method_name(self) -> Seq<char> {
        self.capture_method_name@
    }

    /// The method name is always a supported one.
    pub fn capture_method_name(&self) -> (r: &str)
        ensures
            r@ == self.method_name(),
            is_supported_method(r@),
    {
        proof {
            use_type_invariant(self);
        }
        self.capture_method_name.as_str()
    }

    /// A manager set to choose its capture method automatically.
    pub fn new() -> (r: Self)
        ensures
            r.method_name() == "自动"@,
    {
        let name = String::from_str("自动");
        proof {
            assert(supported_method_names()[0] == "自动"@);
        }
        Self { capture_method_name: name, wgc_capture: WgcCapture }
    }

    /// The names of the supported capture methods.
    pub fn get_capture_method_name() -> (r: Vec<String>)
        ensures
            r@.len() == 2,
            r@[0]@ == "自动"@,
            r@[1]@ == "WGC"@,
            forall|k: int| 0 <= k < 2 ==> (#[trigger] r@[k])@ == supported_method_names()[k],
    {
        let mut v: Vec<String> = Vec::new();
        v.push(String::from_str("自动"));
        v.push(String::from_str("WGC"));
        v
    }

    /// Sets the capture method; a name that is not supported is refused and leaves the
    /// manager as it was.
    pub fn set_capture_method_name(&mut self, method_name: String) -> (r: Result<
        (),
        ScreenshotError,
    >)
        ensures
            r is Ok <==> is_supported_method(method_name@),
            r is Ok ==> final(self).method_name() == method_name@,
            r is Err ==> final(self).method_name() == old(self).method_name(),
            r matches Err(e) ==> e matches ScreenshotError::UnsupportedCaptureMethod(m) && m@
                == method_name@,
    {
        let candidates = Self::get_capture_method_name();
        let mut found = false;
        let mut i: usize = 0;
        while i < candidates.len()
            invariant
                candidates@.len() == 2,
                forall|k: int| 0 <= k < 2 ==> (#[trigger] candidates@[k])@
                    == supported_method_names()[k],
                0 <= i <= 2,
                found <==> exists|k: int| 0 <= k < i && supported_method_names()[k] == method_name@,
            decreases 2 - i,
        {
            if candidates[i] == method_name {
                found = true;
            }
            i = i + 1;
        }
        proof {
            if found {
                let k = choose|k: int| 0 <= k < 2 && supported_method_names()[k] == method_name@;
                assert(supported_method_names()[k] == method_name@);
            }
            if is_supported_method(method_name@) {
                let k = choose|k: int|
                    0 <= k < supported_method_names().len() && supported_method_names()[k]
                        == method_name@;
                assert(0 <= k < 2);
            }
        }
        if !found {
            return Err(ScreenshotError::UnsupportedCaptureMethod(method_name));
        }
        self.capture_method_name = method_name;
        Ok(())
    }

    /// The backend that captures: every supported method captures through Windows Graphics
    /// Capture.
    pub fn backend(&self) -> (r: &WgcCapture)
        ensures
            *r == WgcCapture,
    {
        &self.wgc_capture
    }

    /// The first primary screen, else the first screen; `MonitorNotFound` when there is none.
    pub fn primary_screen(&self, screens: &Vec<ScreenInfo>) -> (r: Result<
        ScreenInfo,
        ScreenshotError,
    >)
        ensures
            r is Ok <==> spec_primary_screen(screens@) is Some,
            r matches Ok(s) ==> spec_primary_screen(screens@) == Some(s),
            r matches Err(e) ==> e is MonitorNotFound,
    {
        let mut i: usize = 0;
        while i < screens.len()
            invariant
                0 <= i <= screens@.len(),
                forall|j: int| 0 <= j < i ==> !(#[trigger] screens@[j]).is_primary,
            decreases screens@.len() - i,
        {
            if screens[i].is_primary {
                proof {
                    let p = |s: ScreenInfo| s.is_primary;
                    assert(is_first_primary(screens@, i as int));
                    let k = choose|k: int| #[trigger] is_first_primary(screens@, k);
                    lemma_first_screen_unique(screens@, k, i as int, p);
                }
                return Ok(screens[i].clone());
            }
            i = i + 1;
        }
        if screens.len() > 0 {
            Ok(screens[0].clone())
        } else {
            Err(ScreenshotError::MonitorNotFound)
        }
    }

    /// The screen a window is captured on: the listed screen with the window's screen id,
    /// else the primary screen.
    pub fn screen_for_window(&self, window: &WindowInfo, screens: &Vec<ScreenInfo>) -> (r: Result<
        ScreenInfo,
        ScreenshotError,
    >)
        ensures
            r is Ok <==> spec_screen_for_window(*window, screens@) is Some,
            r matches Ok(s) ==> spec_screen_for_window(*window, screens@) == Some(s),
            r matches Err(e) ==> e is MonitorNotFound,
    {
        match window.screen_id {
            Some(screen_id) => {
                match find_screen_by_id(screens, screen_id) {
                    Some(s) => {
                        proof {
                            let p = |s: ScreenInfo| s.id == screen_id;
                            let k0 = choose|k: int| is_first_with_id(screens@, k, screen_id) && screens@[k] == s;
                            assert(screens@[k0].id == screen_id);
                            let k = choose|k: int| #[trigger] is_first_with_id(screens@, k, screen_id);
                            lemma_first_screen_unique(screens@, k, k0, p);
                        }
                        Ok(s)
                    },
                    None => self.primary_screen(screens),
                }
            },
            None => self.primary_screen(screens),
        }
    }

    /// Finds what a capture target refers to among the listed screens and windows.
    pub fn capture_target(
        &self,
        target: CaptureTarget,
        screens: &Vec<ScreenInfo>,
        windows: &Vec<WindowInfo>,
    ) -> (r: Result<ResolvedTarget, ScreenshotError>)
        requires
            target matches CaptureTarget::Window(id) ==> (spec_find_window(windows@, id) matches Some(
                w,
            ) ==> i32::MIN <= w.rect.spec_width() <= i32::MAX && i32::MIN <= w.rect.spec_height()
                <= i32::MAX),
        ensures
            target matches CaptureTarget::PrimaryScreen ==> {
                &&& r is Ok <==> spec_primary_screen(screens@) is Some
                &&& r matches Ok(t) ==> Some(t.screen) == spec_primary_screen(screens@)
                    && t.window is None && t.full_area == (Rect {
                    left: 0,
                    top: 0,
                    right: t.screen.width,
                    bottom: t.screen.height,
                })
                &&& r matches Err(e) ==> e is MonitorNotFound
            },
            target matches CaptureTarget::Screen(id) ==> {
                &&& r is Ok <==> exists|k: int|
                    0 <= k < screens@.len() && (#[trigger] screens@[k]).id == id
                &&& r matches Ok(t) ==> (exists|k: int|
                    is_first_with_id(screens@, k, id) && screens@[k] == t.screen) && t.window is None && t.full_area == (Rect {
                    left: 0,
                    top: 0,
                    right: t.screen.width,
                    bottom: t.screen.height,
                })
                &&& r matches Err(e) ==> e is MonitorNotFound
            },
            target matches CaptureTarget::Window(id) ==> (spec_find_window(windows@, id) is None
                ==> (r matches Err(e) && e matches ScreenshotError::WindowNotFound(m) && m@
                == window_id_text(id))),
            target matches CaptureTarget::Window(id) ==> same_outcome(
                r,
                spec_window_target(id, screens@, windows@),
            ),
    {
        match target {
            CaptureTarget::PrimaryScreen => {
                let screen = self.primary_screen(screens)?;
                let full_area = Rect::from_xywh(0, 0, screen.width, screen.height);
                Ok(ResolvedTarget { screen, window: None, full_area })
            },
            CaptureTarget::Screen(screen_id) => {
                match find_screen_by_id(screens, screen_id) {
                    Some(screen) => {
                        let full_area = Rect::from_xywh(0, 0, screen.width, screen.height);
                        Ok(ResolvedTarget { screen, window: None, full_area })
                    },
                    None => {
                        proof {
                            assert(forall|k: int|
                                0 <= k < screens@.len() ==> (#[trigger] screens@[k]).id
                                    != screen_id);
                        }
                        Err(ScreenshotError::MonitorNotFound)
                    },
                }
            },
            CaptureTarget::Window(window_id) => {
                let window = match find_window(windows, window_id) {
                    Some(w) => w,
                    None => {
                        return Err(ScreenshotError::WindowNotFound(window_id_message(window_id)));
                    },
                };
                proof {
                    lemma_first_window_exists(windows@, window_id);
                }
                let screen = self.screen_for_window(&window, screens)?;
                let full_area = Rect::from_xywh(0, 0, window.rect.width(), window.rect.height());
                Ok(ResolvedTarget { screen, window: Some(window), full_area })
            },
        }
    }

    /// The capture of a region of a window, given in desktop coordinates, as an area relative
    /// to the window's rectangle `window_rect`.
    pub fn capture_window_region(
        &self,
        window_id: WindowId,
        window_rect: Rect,
        region_in_screen: Rect,
        screens: &Vec<ScreenInfo>,
        windows: &Vec<WindowInfo>,
    ) -> (r: Result<ScreenCaptureInfo, ScreenshotError>)
        requires
            spec_find_window(windows@, window_id) matches Some(w) && spec_screen_for_window(
                w,
                screens@,
            ) is Some ==> {
                &&& i32::MIN <= region_in_screen.left - window_rect.left <= i32::MAX
                &&& i32::MIN <= region_in_screen.top - window_rect.top <= i32::MAX
                &&& i32::MIN <= region_in_screen.right - window_rect.left <= i32::MAX
                &&& i32::MIN <= region_in_screen.bottom - window_rect.top <= i32::MAX
                &&& i32::MIN <= region_in_screen.spec_width() <= i32::MAX
                &&& i32::MIN <= region_in_screen.spec_height() <= i32::MAX
            },
        ensures
            spec_find_window(windows@, window_id) is None ==> (r matches Err(e)
                && e matches ScreenshotError::WindowNotFound(m) && m@ == window_id_text(window_id)),
            spec_find_window(windows@, window_id) matches Some(w) ==> {
                &&& spec_screen_for_window(w, screens@) is None ==> (r matches Err(e)
                    && e is MonitorNotFound)
                &&& spec_screen_for_window(w, screens@) matches Some(s) ==> (r matches Ok(info)
                    && info.window_info == Some(w) && info.screen_info == s
                    && info.screen_capture_type == crate::types::ScreenCaptureType::Window
                    && info.x == region_in_screen.left - window_rect.left && info.y
                    == region_in_screen.top - window_rect.top && info.width
                    == region_in_screen.spec_width() && info.height
                    == region_in_screen.spec_height())
            },
    {
        let window = match find_window(windows, window_id) {
            Some(w) => w,
            None => {
                return Err(ScreenshotError::WindowNotFound(window_id_message(window_id)));
            },
        };
        let screen = self.screen_for_window(&window, screens)?;
        let local_region = Rect::new(
            region_in_screen.left - window_rect.left,
            region_in_screen.top - window_rect.top,
            region_in_screen.right - window_rect.left,
            region_in_screen.bottom - window_rect.top,
        );
        Ok(ScreenCaptureInfo::for_window_area(window, screen, local_region))
    }

    /// Index of the layout of the window `window_id`; `WindowNotFound` when it has none.
    pub fn layout_by_id(&self, layouts: &Vec<WindowLayoutInfo>, window_id: WindowId) -> (r: Result<
        usize,
        ScreenshotError,
    >)
        ensures
            r matches Ok(k) ==> k < layouts@.len() && layouts@[k as int].window.id == window_id
                && forall|j: int| 0 <= j < k ==> (#[trigger] layouts@[j]).window.id != window_id,
            r is Err ==> forall|j: int|
                0 <= j < layouts@.len() ==> (#[trigger] layouts@[j]).window.id != window_id,
            r matches Err(e) ==> e matches ScreenshotError::WindowNotFound(m) && m@
                == window_id_text(window_id),
    {
        match find_layout(layouts, window_id) {
            Some(k) => Ok(k),
            None => Err(ScreenshotError::WindowNotFound(window_id_message(window_id))),
        }
    }
}

impl WindowLayoutInfo {
    /// The bounding rectangle of what is visible of the window; `WindowNotFound` when the
    /// window is fully occluded.
    pub fn visible_bounds_region(&self) -> (r: Result<Rect, ScreenshotError>)
        ensures
            r is Ok <==> self.visible_bounds is Some,
            r matches Ok(b) ==> self.visible_bounds == Some(b),
            r matches Err(e) ==> e matches ScreenshotError::WindowNotFound(m) && m@
                == "window is fully occluded"@,
    {
        match self.visible_bounds {
            Some(b) => Ok(b),
            None => Err(ScreenshotError::WindowNotFound(String::from_str("window is fully occluded"))),
        }
    }

    /// The largest visible region of the window; `WindowNotFound` when the window is fully
    /// occluded.
    pub fn largest_visible_region_or_err(&self) -> (r: Result<Rect, ScreenshotError>)
        ensures
            r is Ok <==> self.visible_regions@.len() > 0,
            r matches Ok(b) ==> exists|k: int|
                crate::types::is_last_largest(self.visible_regions@, k) && self.visible_regions@[k]
                    == b,
            r matches Err(e) ==> e matches ScreenshotError::WindowNotFound(m) && m@
                == "window is fully occluded"@,
    {
        match self.largest_visible_region() {
            Some(b) => Ok(b),
            None => Err(ScreenshotError::WindowNotFound(String::from_str("window is fully occluded"))),
        }
    }
}

} // verus!
