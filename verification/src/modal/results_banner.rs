//! The banners that the results modal can show.
use vstd::prelude::*;

verus! {

/// An available results banner. Each is an image under `results_banner/`,
/// laid out in a single column of frames.
#[derive(Clone, Copy, Debug, PartialEq, Eq, Structural)]
pub enum ResultsBanner {
    Congratulations,
    WellDone,
    YoureADiamond,
    Goal,
    LuckyYou,
    NiceWork,
    NoodleTime,
    Sweet,
    HappyCaturday,
    NiceTry,
}

/// How a banner is cut into frames: the size of a frame, the number of rows in
/// the asset, and the frame count to cycle through when it is animated.
#[derive(Clone, Copy, Debug, PartialEq, Eq, Structural)]
pub struct BannerLayout {
    pub frame_width: u32,
    pub frame_height: u32,
    pub rows: u32,
    pub animated_frames: Option<u32>,
}

/// The frames of an animated banner: each frame is `width` by `height` pixels,
/// one per row of the asset, and the animation cycles through all rows.
pub open spec fn animated_layout(width: u32, height: u32, rows: u32) -> BannerLayout {
    BannerLayout { frame_width: width, frame_height: height, rows, animated_frames: Some(rows) }
}

/// How each banner is cut into frames; the static banners are not.
pub open spec fn spec_layout(banner: ResultsBanner) -> Option<BannerLayout> {
    match banner {
        ResultsBanner::Goal => Some(animated_layout(128, 32, 4)),
        ResultsBanner::LuckyYou => Some(animated_layout(192, 96, 6)),
        ResultsBanner::NiceWork => Some(animated_layout(96, 64, 28)),
        ResultsBanner::NoodleTime => Some(animated_layout(96, 96, 12)),
        ResultsBanner::Sweet => Some(animated_layout(96, 96, 19)),
        _ => None,
    }
}

/// The name of the asset of a banner.
pub open spec fn spec_asset_name(banner: ResultsBanner) -> Seq<char> {
    match banner {
        ResultsBanner::Congratulations => "congratulations.png"@,
        ResultsBanner::WellDone => "well_done.png"@,
        ResultsBanner::YoureADiamond => "youre_a_diamond.png"@,
        ResultsBanner::Goal => "goal.png"@,
        ResultsBanner::LuckyYou => "lucky_you.png"@,
        ResultsBanner::NiceWork => "nice_work.png"@,
        ResultsBanner::NoodleTime => "noodle_time.png"@,
        ResultsBanner::Sweet => "sweet.png"@,
        ResultsBanner::HappyCaturday => "happy_caturday_perched.png"@,
        ResultsBanner::NiceTry => "nice_try.png"@,
    }
}

/// The three static banners, in order.
pub open spec fn spec_static_banner(index: int) -> ResultsBanner {
    if index == 0 {
        ResultsBanner::Congratulations
    } else if index == 1 {
        ResultsBanner::WellDone
    } else {
        ResultsBanner::YoureADiamond
    }
}

/// The five animated banners, in order.
pub open spec fn spec_animation_banner(index: int) -> ResultsBanner {
    if index == 0 {
        ResultsBanner::Goal
    } else if index == 1 {
        ResultsBanner::LuckyYou
    } else if index == 2 {
        ResultsBanner::NiceWork
    } else if index == 3 {
        ResultsBanner::NoodleTime
    } else {
        ResultsBanner::Sweet
    }
}

/// The banner is one of the three static ones.
pub open spec fn is_static_banner(banner: ResultsBanner) -> bool {
    banner == ResultsBanner::Congratulations || banner == ResultsBanner::WellDone || banner
        == ResultsBanner::YoureADiamond
}

/// The banner is one of the five animated ones.
pub open spec fn is_animation_banner(banner: ResultsBanner) -> bool {
    banner == ResultsBanner::Goal || banner == ResultsBanner::LuckyYou || banner
        == ResultsBanner::NiceWork || banner == ResultsBanner::NoodleTime || banner
        == ResultsBanner::Sweet
}

/// Number of static banners.
pub const STATIC_RESULTS_BANNER_COUNT: usize = 3;

/// Number of animated banners.
pub const ANIMATION_COUNT: usize = 5;

impl ResultsBanner {
    /// The static banner at `index`.
    pub fn static_banner(index: usize) -> (banner: ResultsBanner)
        requires
            index < 3,
        ensures
            banner == spec_static_banner(index as int),
            is_static_banner(banner),
    {
        match index {
            0 => ResultsBanner::Congratulations,
            1 => ResultsBanner::WellDone,
            _ => ResultsBanner::YoureADiamond,
        }
    }

    /// The animated banner at `index`.
    pub fn animation(index: usize) -> (banner: ResultsBanner)
        requires
            index < 5,
        ensures
            banner == spec_animation_banner(index as int),
            is_animation_banner(banner),
    {
        match index {
            0 => ResultsBanner::Goal,
            1 => ResultsBanner::LuckyYou,
            2 => ResultsBanner::NiceWork,
            3 => ResultsBanner::NoodleTime,
            _ => ResultsBanner::Sweet,
        }
    }

    /// The name of the asset under `results_banner/`.
    pub fn asset_name(&self) -> (name: &'static str)
        ensures
            name@ == spec_asset_name(*self),
    {
        match self {
            ResultsBanner::Congratulations => "congratulations.png",
            ResultsBanner::WellDone => "well_done.png",
            ResultsBanner::YoureADiamond => "youre_a_diamond.png",
            ResultsBanner::Goal => "goal.png",
            ResultsBanner::LuckyYou => "lucky_you.png",
            ResultsBanner::NiceWork => "nice_work.png",
            ResultsBanner::NoodleTime => "noodle_time.png",
            ResultsBanner::Sweet => "sweet.png",
            ResultsBanner::HappyCaturday => "happy_caturday_perched.png",
            ResultsBanner::NiceTry => "nice_try.png",
        }
    }

    /// How the banner is cut into frames: `None` for a static image, otherwise
    /// the frame size, the rows of the asset and the frames it cycles through.
    pub fn layout(&self) -> (layout: Option<BannerLayout>)
        ensures
            layout == spec_layout(*self),
            is_animation_banner(*self) <==> layout is Some,
    {
        match self {
            ResultsBanner::Goal => Some(
                BannerLayout { frame_width: 128, frame_height: 32, rows: 4, animated_frames: Some(4) },
            ),
            ResultsBanner::LuckyYou => Some(
                BannerLayout { frame_width: 192, frame_height: 96, rows: 6, animated_frames: Some(6) },
            ),
            ResultsBanner::NiceWork => Some(
                BannerLayout {
                    frame_width: 96,
                    frame_height: 64,
                    rows: 28,
                    animated_frames: Some(28),
                },
            ),
            ResultsBanner::NoodleTime => Some(
                BannerLayout {
                    frame_width: 96,
                    frame_height: 96,
                    rows: 12,
                    animated_frames: Some(12),
                },
            ),
            ResultsBanner::Sweet => Some(
                BannerLayout {
                    frame_width: 96,
                    frame_height: 96,
                    rows: 19,
                    animated_frames: Some(19),
                },
            ),
            _ => None,
        }
    }
}

/// Each draw picks its own banner: the five draws for a quick game give the
/// five animated banners, each once, and the three draws for a slower one the
/// three static banners, each once.
pub proof fn lemma_banner_draws_distinct(draw: int, other: int)
    ensures
        0 <= draw < 5 ==> is_animation_banner(spec_animation_banner(draw)),
        0 <= draw < 3 ==> is_static_banner(spec_static_banner(draw)),
        0 <= draw < 5 && 0 <= other < 5 && draw != other ==> spec_animation_banner(draw)
            != spec_animation_banner(other),
        0 <= draw < 3 && 0 <= other < 3 && draw != other ==> spec_static_banner(draw)
            != spec_static_banner(other),
{
}

/// Every banner has an image of its own, a `.png`; exactly the animated banners
/// are cut into frames, and an animation cycles through every row of its image.
pub proof fn lemma_banner_assets(banner: ResultsBanner, other: ResultsBanner)
    ensures
        banner != other ==> spec_asset_name(banner) != spec_asset_name(other),
        spec_asset_name(banner).len() > 4 && spec_asset_name(banner).subrange(
            spec_asset_name(banner).len() - 4,
            spec_asset_name(banner).len() as int,
        ) == ".png"@,
        spec_layout(banner) is Some <==> is_animation_banner(banner),
        spec_layout(banner) matches Some(l) ==> l.animated_frames == Some(l.rows) && l.rows > 0
            && l.frame_width > 0 && l.frame_height > 0,
{
    reveal_strlit(".png");
    reveal_strlit("congratulations.png");
    reveal_strlit("well_done.png");
    reveal_strlit("youre_a_diamond.png");
    reveal_strlit("goal.png");
    reveal_strlit("lucky_you.png");
    reveal_strlit("nice_work.png");
    reveal_strlit("noodle_time.png");
    reveal_strlit("sweet.png");
    reveal_strlit("happy_caturday_perched.png");
    reveal_strlit("nice_try.png");
    let name = spec_asset_name(banner);
    assert(name.subrange(name.len() - 4, name.len() as int) =~= ".png"@);
    if banner != other && name == spec_asset_name(other) {
        let o = spec_asset_name(other);
        assert(name.len() == o.len());
        assert(name[0] == o[0] && name[1] == o[1] && name[2] == o[2] && name[3] == o[3]);
    }
}

} // verus!
