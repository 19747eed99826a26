//! How the window should be created: kept here so the driver can inform
//! whichever rendering front end it uses.

use vstd::prelude::*;
use vstd::string::StringExecFns;

verus! {

pub struct WindowConfig {
    pub name: String,
    pub fullscreen: bool,
    pub vsync: bool,
    pub width: i32,
    pub height: i32,
    pub auto_clear: bool,
}

impl Default for WindowConfig {
    fn default() -> (r: Self)
        ensures
            r.name@ == "Taconite window"@,
            !r.fullscreen,
            r.vsync,
            r.width == 640,
            r.height == 480,
            r.auto_clear,
    {
        WindowConfig {
            name: String::from_str("Taconite window"),
            fullscreen: false,
            vsync: true,
            width: 640,
            height: 480,
            auto_clear: true,
        }
    }
}

} // verus!
