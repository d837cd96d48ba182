//! What passes between the library and the platform, as plain values: the
//! windows the platform reports, the commands it is to carry out, the name
//! of a process taken from the path of its image, and the conversions
//! between the percentage a user enters and the level 0..=255 the platform
//! takes.

use vstd::prelude::*;
use vstd::string::*;
use crate::seq_util::{first_index, lemma_first_index_is};

verus! {

/// The lowest percentage a user may choose; lower entries are raised to it.
pub const MINIMUM_TRANSPARENCY: i32 = 30;

/// What is known of a window the user picked.
#[derive(Debug)]
pub struct WindowInfo {
    pub class_name: String,
    pub process_name: String,
}

impl Clone for WindowInfo {
    fn clone(&self) -> (copy: Self)
        ensures
            copy.class_name@ == self.class_name@,
            copy.process_name@ == self.process_name@,
    {
        WindowInfo { class_name: self.class_name.clone(), process_name: self.process_name.clone() }
    }
}

impl Default for WindowInfo {
    fn default() -> (info: Self)
        ensures
            info.class_name@ == Seq::<char>::empty(),
            info.process_name@ == Seq::<char>::empty(),
    {
        WindowInfo { class_name: String::new(), process_name: String::new() }
    }
}

/// A top-level window as the platform reported it: its handle, its class and
/// the name of the process that owns it.
#[derive(Debug)]
pub struct LiveWindow {
    pub handle: isize,
    pub class_name: String,
    pub process_name: String,
}

impl LiveWindow {
    pub fn new(handle: isize, class_name: String, process_name: String) -> (window: Self)
        ensures
            window.handle == handle,
            window.class_name@ == class_name@,
            window.process_name@ == process_name@,
    {
        LiveWindow { handle, class_name, process_name }
    }
}

/// A request to the platform: set this window to this level.
#[derive(Clone, Copy, Debug, PartialEq, Eq, Structural)]
pub struct AlphaCommand {
    pub handle: isize,
    pub alpha: u8,
}

/// One command for each of `handles`: set it to `alpha`.
pub open spec fn commands_at(handles: Seq<isize>, alpha: u8) -> Seq<AlphaCommand> {
    handles.map_values(|handle: isize| AlphaCommand { handle, alpha })
}

/// The commands that set every one of `handles` to `transparency`.
pub fn make_window_transparent(handles: &Vec<isize>, transparency: u8) -> (commands: Vec<
    AlphaCommand,
>)
    ensures
        commands@ == commands_at(handles@, transparency),
{
    let mut commands: Vec<AlphaCommand> = Vec::new();
    let mut i: usize = 0;
    while i < handles.len()
        invariant
            i <= handles.len(),
            commands@ == commands_at(handles@.take(i as int), transparency),
        decreases handles.len() - i,
    {
        commands.push(AlphaCommand { handle: handles[i], alpha: transparency });
        assert(commands@ =~= commands_at(handles@.take(i + 1), transparency));
        i += 1;
    }
    assert(handles@.take(handles@.len() as int) =~= handles@);
    commands
}

/// A window as one walk over the desktop found it. The walk lists every
/// top-level window, each followed by its descendants, in the order in
/// which the platform hands them out.
#[derive(Debug)]
pub struct DesktopWindow {
    pub handle: isize,
    /// The class name; `None` where the platform could not tell it.
    pub class_name: Option<String>,
    /// The immediate parent; `None` where the platform names none.
    pub parent: Option<isize>,
    /// Whether the window is a top-level window and not a descendant.
    pub top_level: bool,
}

impl DesktopWindow {
    pub fn new(handle: isize, class_name: Option<String>, parent: Option<isize>, top_level: bool) -> (window:
        Self)
        ensures
            window.handle == handle,
            window.class_name == class_name,
            window.parent == parent,
            window.top_level == top_level,
    {
        DesktopWindow { handle, class_name, parent, top_level }
    }
}

/// The test a character passes when it is `wanted`.
pub open spec fn is_char(wanted: char) -> spec_fn(char) -> bool {
    |c: char| c == wanted
}

/// Where the file name of a path starts: behind its last backslash, or at
/// its start where it has none.
pub open spec fn file_name_start(path: Seq<char>) -> int
    decreases path.len(),
{
    if path.len() == 0 {
        0
    } else if path.last() == '\\' {
        path.len() as int
    } else {
        file_name_start(path.drop_last())
    }
}

/// The name of a process, taken from the path of its image: the file name
/// up to its first dot.
pub open spec fn image_name(path: Seq<char>) -> Seq<char> {
    let file = path.skip(file_name_start(path));
    file.take(first_index(file, is_char('.')))
}

/// The name of the process whose image lies at `full_path`.
pub fn get_process_name(full_path: &str) -> (name: String)
    ensures
        name@ == image_name(full_path@),
{
    let length = full_path.unicode_len();
    let mut start: usize = 0;
    let mut i: usize = 0;
    assert(full_path@.take(0) =~= Seq::<char>::empty());
    while i < length
        invariant
            i <= length,
            length == full_path@.len(),
            start == file_name_start(full_path@.take(i as int)),
            start <= i,
        decreases length - i,
    {
        proof {
            assert(full_path@.take(i + 1).drop_last() =~= full_path@.take(i as int));
        }
        if full_path.get_char(i) == '\\' {
            start = i + 1;
        }
        i += 1;
    }
    assert(full_path@.take(length as int) =~= full_path@);
    let ghost file = full_path@.skip(start as int);
    let mut end: usize = start;
    while end < length && full_path.get_char(end) != '.'
        invariant
            start <= end <= length,
            length == full_path@.len(),
            file == full_path@.skip(start as int),
            forall|j: int| 0 <= j < end - start ==> !is_char('.')(#[trigger] file[j]),
        decreases length - end,
    {
        assert(file[end - start] == full_path@[end as int]);
        end += 1;
    }
    proof {
        if end < length {
            assert(file[end - start] == full_path@[end as int]);
        }
        lemma_first_index_is(file, is_char('.'), end - start);
        assert(full_path@.subrange(start as int, end as int) =~= file.take(end - start));
    }
    String::from_str(full_path.substring_char(start, end))
}

/// The level in 0..=255 for a percentage: entries under the minimum count as
/// the minimum, entries over 100 as fully opaque, and everything between is
/// `value * 255 / 100` rounded to the nearest integer, halves upward.
pub open spec fn percent_to_alpha(value: int) -> int {
    if value > 100 {
        255
    } else if value < MINIMUM_TRANSPARENCY {
        77
    } else {
        (value * 51 + 10) / 20
    }
}

/// The percentage for a level: `value * 100 / 255` rounded to the nearest
/// integer.
pub open spec fn alpha_to_percent(value: int) -> int {
    (value * 40 + 51) / 102
}

/// `percent_to_alpha` is the nearest integer to `value * 255 / 100` on the
/// percentages it does not clamp, with halves rounded upward.
pub proof fn lemma_percent_to_alpha_nearest(value: int)
    requires
        30 <= value <= 100,
    ensures
        0 <= percent_to_alpha(value) <= 255,
        2 * (100 * percent_to_alpha(value) - 255 * value) <= 100,
        2 * (255 * value - 100 * percent_to_alpha(value)) < 100,
{
}

/// `alpha_to_percent` is the nearest integer to `value * 100 / 255`; no level
/// falls on a half.
pub proof fn lemma_alpha_to_percent_nearest(value: int)
    requires
        0 <= value <= 255,
    ensures
        0 <= alpha_to_percent(value) <= 100,
        2 * (255 * alpha_to_percent(value) - 100 * value) < 255,
        2 * (100 * value - 255 * alpha_to_percent(value)) < 255,
{
}

/// Converts a percentage to the level the platform takes.
pub fn convert_to_full(value: i32) -> (alpha: u8)
    ensures
        alpha as int == percent_to_alpha(value as int),
        alpha >= 77,
{
    let mut value = value;
    if value < MINIMUM_TRANSPARENCY {
        value = MINIMUM_TRANSPARENCY;
    }
    if value > 100 {
        return 255;
    }
    let scaled: i32 = (value * 51 + 10) / 20;
    scaled as u8
}

/// Converts a level to the percentage shown to the user.
pub fn convert_to_human(value: u8) -> (percent: u8)
    ensures
        percent as int == alpha_to_percent(value as int),
        percent <= 100,
{
    let wide: u32 = value as u32;
    let scaled: u32 = (wide * 40 + 51) / 102;
    scaled as u8
}

} // verus!
