//! What the tray icon and its tooltip show for a dashboard snapshot.
use vstd::prelude::*;
use crate::models::{DashboardSnapshot, QuotaWindow};
use crate::text::{decimal_text, u64_text};

verus! {

/// The tray icon: the plain application icon, or one with a quota bar.
#[derive(Debug, Clone, Copy, PartialEq, Eq, Structural)]
pub enum TrayIconState {
    Default,
    Quota(TrayQuotaIcon),
}

/// The quota bar of the tray icon.
#[derive(Debug, Clone, Copy, PartialEq, Eq, Structural)]
pub struct TrayQuotaIcon {
    pub remaining_percent: u8,
}

/// A colour with an alpha channel.
#[derive(Debug, Clone, Copy, PartialEq, Eq, Structural)]
pub struct RgbaColor {
    pub red: u8,
    pub green: u8,
    pub blue: u8,
    pub alpha: u8,
}

/// The width and height of the tray icon in pixels.
pub const ICON_SIZE: u32 = 32;

/// Whether window `i` is the tightest of `ws`: it has the least quota left, and no window
/// before it has as little.
pub open spec fn is_tightest(ws: Seq<QuotaWindow>, i: int) -> bool {
    &&& 0 <= i < ws.len()
    &&& forall|j: int| 0 <= j < ws.len() ==> ws[i].remaining_percent <= #[trigger] ws[j].remaining_percent
    &&& forall|j: int| 0 <= j < i ==> #[trigger] ws[j].remaining_percent > ws[i].remaining_percent
}

/// At most one window is the tightest.
pub proof fn lemma_tightest_unique(ws: Seq<QuotaWindow>, i: int, k: int)
    requires
        is_tightest(ws, i),
        is_tightest(ws, k),
    ensures
        i == k,
{
    if i < k {
        assert(ws[i].remaining_percent > ws[k].remaining_percent);
    } else if k < i {
        assert(ws[k].remaining_percent > ws[i].remaining_percent);
    }
}

/// Whether the snapshot has a quota reading with at least one window.
pub open spec fn has_quota_windows(snapshot: DashboardSnapshot) -> bool {
    snapshot.quota is Some && snapshot.quota->0.windows@.len() > 0
}

/// The index of the tightest window of a snapshot, if it has one; and whether the reading is
/// stale.
pub fn tray_quota_status(snapshot: &DashboardSnapshot) -> (r: Option<(usize, bool)>)
    ensures
        r is None <==> !has_quota_windows(*snapshot),
        r matches Some((i, stale)) ==> {
            &&& is_tightest(snapshot.quota->0.windows@, i as int)
            &&& stale == snapshot.quota->0.stale
        },
{
    match &snapshot.quota {
        None => None,
        Some(quota) => {
            let ws = &quota.windows;
            if ws.len() == 0 {
                return None;
            }
            let mut best: usize = 0;
            let mut i: usize = 1;
            while i < ws.len()
                invariant
                    1 <= i <= ws.len(),
                    best < i,
                    forall|j: int| 0 <= j < i ==> ws@[best as int].remaining_percent <= #[trigger] ws@[j].remaining_percent,
                    forall|j: int| 0 <= j < best ==> #[trigger] ws@[j].remaining_percent > ws@[best as int].remaining_percent,
                decreases ws.len() - i,
            {
                if ws[i].remaining_percent < ws[best].remaining_percent {
                    best = i;
                }
                i += 1;
            }
            Some((best, quota.stale))
        },
    }
}

/// The tray icon for a snapshot: a quota bar for its tightest window, else the default icon.
pub fn icon_state_for_snapshot(snapshot: &DashboardSnapshot) -> (r: TrayIconState)
    ensures
        !has_quota_windows(*snapshot) ==> r == TrayIconState::Default,
        has_quota_windows(*snapshot) ==> exists|i: int| {
            &&& is_tightest(snapshot.quota->0.windows@, i)
            &&& r == TrayIconState::Quota(
                TrayQuotaIcon { remaining_percent: #[trigger] snapshot.quota->0.windows@[i].remaining_percent },
            )
        },
{
    match tray_quota_status(snapshot) {
        None => TrayIconState::Default,
        Some((i, _)) => {
            let quota = snapshot.quota.as_ref().unwrap();
            let rp = quota.windows[i].remaining_percent;
            let r = TrayIconState::Quota(TrayQuotaIcon { remaining_percent: rp });
            assert(snapshot.quota->0.windows@[i as int].remaining_percent == rp);
            r
        },
    }
}

/// The tooltip of the tray when no quota is known.
pub open spec fn default_tooltip() -> Seq<char> {
    "CodexTray"@
}

/// The tooltip for a window: its label and the percentage left, marked when the reading is
/// the last successful one rather than a live one.
pub open spec fn quota_tooltip(label: Seq<char>, remaining_percent: u8, stale: bool) -> Seq<char> {
    "CodexTray - "@ + label + " 剩余额度 "@ + decimal_text(remaining_percent as nat) + "%"@ + (
    if stale {
        "（上次成功）"@
    } else {
        Seq::empty()
    })
}

/// The tooltip of the tray for a snapshot.
pub fn tooltip_for_snapshot(snapshot: &DashboardSnapshot) -> (r: String)
    ensures
        !has_quota_windows(*snapshot) ==> r@ == default_tooltip(),
        has_quota_windows(*snapshot) ==> exists|i: int| {
            &&& is_tightest(snapshot.quota->0.windows@, i)
            &&& r@ == quota_tooltip(
                #[trigger] snapshot.quota->0.windows@[i].label@,
                snapshot.quota->0.windows@[i].remaining_percent,
                snapshot.quota->0.stale,
            )
        },
{
    match tray_quota_status(snapshot) {
        None => String::from_str("CodexTray"),
        Some((i, stale)) => {
            let quota = snapshot.quota.as_ref().unwrap();
            let w = &quota.windows[i];
            let mut s = String::from_str("CodexTray - ");
            s.append(w.label.as_str());
            s.append(" 剩余额度 ");
            let pct = u64_text(w.remaining_percent as u64);
            s.append(pct.as_str());
            s.append("%");
            if stale {
                s.append("（上次成功）");
            } else {
                assert(s@ + Seq::<char>::empty() =~= s@);
            }
            assert(snapshot.quota->0.windows@[i as int].label@ == w.label@);
            s
        },
    }
}

/// The colour of the quota bar: red at 20% or less, amber at 50% or less, else green.
pub fn quota_color(remaining_percent: u8) -> (r: RgbaColor)
    ensures
        remaining_percent <= 20 ==> r == color_spec(248, 113, 113, 255),
        20 < remaining_percent <= 50 ==> r == color_spec(251, 191, 36, 255),
        50 < remaining_percent ==> r == color_spec(34, 197, 94, 255),
{
    if remaining_percent <= 20 {
        return color(248, 113, 113, 255);
    }
    if remaining_percent <= 50 {
        return color(251, 191, 36, 255);
    }
    color(34, 197, 94, 255)
}

/// The colour with the given channels.
pub open spec fn color_spec(red: u8, green: u8, blue: u8, alpha: u8) -> RgbaColor {
    RgbaColor { red, green, blue, alpha }
}

/// The colour with the given channels.
pub fn color(red: u8, green: u8, blue: u8, alpha: u8) -> (r: RgbaColor)
    ensures
        r == color_spec(red, green, blue, alpha),
{
    RgbaColor { red, green, blue, alpha }
}

/// The number of pixels of the 18-pixel quota bar that are filled: the percentage (at most
/// 100) of 18, rounded half away from zero.
pub open spec fn fill_width_spec(remaining_percent: u8) -> int {
    let p = if remaining_percent > 100 { 100 } else { remaining_percent as int };
    (p * 18 + 50) / 100
}

/// The filled width of the quota bar in pixels.
pub fn quota_fill_width(remaining_percent: u8) -> (r: i32)
    ensures
        r == fill_width_spec(remaining_percent),
        0 <= r <= 18,
{
    let p: i32 = if remaining_percent > 100 { 100 } else { remaining_percent as i32 };
    (p * 18 + 50) / 100
}

/// The RGBA canvas of the icon, four bytes per pixel, row by row.
pub open spec fn pixel_index(x: int, y: int) -> int {
    (y * ICON_SIZE + x) * 4
}

/// Paints pixel (`x`, `y`) of the canvas; a pixel outside the icon is ignored.
pub fn set_pixel(canvas: &mut Vec<u8>, x: i32, y: i32, c: RgbaColor)
    requires
        old(canvas).len() == ICON_SIZE * ICON_SIZE * 4,
    ensures
        final(canvas).len() == old(canvas).len(),
        (x < 0 || y < 0 || x >= ICON_SIZE || y >= ICON_SIZE) ==> final(canvas)@ == old(canvas)@,
        (0 <= x < ICON_SIZE && 0 <= y < ICON_SIZE) ==> final(canvas)@ == old(canvas)@.update(
            pixel_index(x as int, y as int),
            c.red,
        ).update(pixel_index(x as int, y as int) + 1, c.green).update(
            pixel_index(x as int, y as int) + 2,
            c.blue,
        ).update(pixel_index(x as int, y as int) + 3, c.alpha),
{
    if x < 0 || y < 0 || x >= 32 || y >= 32 {
        return;
    }
    let index: usize = ((y as usize) * 32 + (x as usize)) * 4;
    canvas.set(index, c.red);
    canvas.set(index + 1, c.green);
    canvas.set(index + 2, c.blue);
    canvas.set(index + 3, c.alpha);
}

} // verus!
