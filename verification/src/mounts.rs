//! Mounted devices: which one a destination stands on, how fast it is linked,
//! and what a newly mounted one is for.

use crate::config::text_path;
use crate::fields::texts;
use crate::order::{
    lemma_path_le_total, lemma_path_le_transitive, path_le, paths_in_order, rearranges,
    sort_positions, Ranking,
};
use crate::path::{
    below, components, file_name_of, joined, lemma_components_nonempty, lemma_current_only_first,
    lemma_joined_components, lemma_stripped_components, stripped, FilePath,
};
use crate::pathset::{holds, path_texts, with_path, PathSet};
use crate::queue::path_view;
use crate::text::{
    begins, chars_of, decode_lossy, is_decimal, is_digit, lines, number, parse_number, same_chars,
    slice_chars, split_lines, split_words, string_of, text_begins, trim, trimmed_text, utf8_lossy,
    words,
};
use crate::worker::text_view;
use vstd::prelude::*;

verus! {

/// A source and where it goes.
#[derive(Debug)]
pub struct TransferMapping {
    pub source: FilePath,
    pub destination: FilePath,
}

/// The contents of a `TransferMapping`.
pub struct MappingView {
    pub source: Seq<u8>,
    pub destination: Seq<u8>,
}

impl View for TransferMapping {
    type V = MappingView;

    open spec fn view(&self) -> MappingView {
        MappingView { source: self.source@, destination: self.destination@ }
    }
}

impl Clone for TransferMapping {
    fn clone(&self) -> (r: TransferMapping)
        ensures
            r@ == self@,
    {
        TransferMapping { source: self.source.clone(), destination: self.destination.clone() }
    }
}

/// The contents of a list of mappings.
pub open spec fn mapping_views(v: Seq<TransferMapping>) -> Seq<MappingView> {
    v.map_values(|m: TransferMapping| m@)
}

/// The directories in which devices get mounted.
pub open spec fn watch_places(user: Option<Seq<char>>) -> Seq<Seq<u8>> {
    match user {
        None => seq![text_path("/media"@)],
        Some(name) => seq![
            text_path("/media"@),
            joined(text_path("/run/media"@), text_path(name)),
        ],
    }
}

/// The directories in which devices get mounted: one for all users, and one for
/// the given one.
pub fn watch_paths_for_user(user: &Option<String>) -> (r: Vec<FilePath>)
    ensures
        path_texts(r@) == watch_places(text_view(*user)),
{
    let mut r: Vec<FilePath> = Vec::new();
    r.push(FilePath::from_text("/media"));
    if let Some(name) = user {
        r.push(FilePath::from_text("/run/media").join(&FilePath::from_text(name.as_str())));
    }
    assert(path_texts(r@) =~= watch_places(text_view(*user)));
    r
}

/// A text without the digits at its end.
pub open spec fn without_digits(s: Seq<char>) -> Seq<char>
    decreases s.len(),
{
    if s.len() > 0 && is_digit(s.last()) {
        without_digits(s.drop_last())
    } else {
        s
    }
}

/// A text without the letters `p` at its end.
pub open spec fn without_p(s: Seq<char>) -> Seq<char>
    decreases s.len(),
{
    if s.len() > 0 && s.last() == 'p' {
        without_p(s.drop_last())
    } else {
        s
    }
}

/// The device that a mounted one is a partition of, or is: its name without the
/// number of the partition. Only what stands in `/dev` is a device.
pub open spec fn root_device(source: Seq<char>, canonical: Option<Seq<u8>>) -> Option<Seq<char>> {
    let place = match canonical {
        Some(p) => p,
        None => text_path(source),
    };
    if !begins(source, "/dev/"@) || file_name_of(place) is None {
        None
    } else {
        Some(without_p(without_digits(utf8_lossy(file_name_of(place)->0))))
    }
}

/// The device that a mounted one is a partition of, or is. `canonical` is where
/// its path leads to, if that is known.
pub fn root_block_device_name_from_source(source: &str, canonical: &Option<FilePath>) -> (r: Option<
    String,
>)
    ensures
        text_view(r) == root_device(source@, path_view(*canonical)),
{
    if !text_begins(source, "/dev/") {
        return None;
    }
    let place = match canonical {
        Some(p) => p.clone(),
        None => FilePath::from_text(source),
    };
    let name = match place.file_name() {
        Some(name) => name,
        None => {
            return None;
        },
    };
    let chars = chars_of(decode_lossy(&name).as_str());
    let ghost all = chars@;
    let mut end: usize = chars.len();
    assert(all.take(end as int) =~= all);
    while end > 0 && is_decimal(chars[end - 1])
        invariant
            end <= chars@.len(),
            all == chars@,
            without_digits(all) == without_digits(all.take(end as int)),
        decreases end,
    {
        assert(all.take(end as int).drop_last() =~= all.take(end - 1));
        end = end - 1;
    }
    let ghost named = all.take(end as int);
    assert(without_digits(all) == named);
    assert(named.take(end as int) =~= named);
    while end > 0 && chars[end - 1] == 'p'
        invariant
            end <= named.len(),
            named.len() <= chars@.len(),
            named == chars@.take(named.len() as int),
            without_p(named) == without_p(named.take(end as int)),
        decreases end,
    {
        assert(named.take(end as int).drop_last() =~= named.take(end - 1));
        end = end - 1;
    }
    assert(named.take(end as int) =~= chars@.subrange(0, end as int));
    Some(string_of(&slice_chars(&chars, 0, end)))
}

/// A number that stands alone in a text.
pub open spec fn lone_number(s: Seq<char>) -> Option<nat> {
    number(trimmed_text(s), u32::MAX as nat)
}

/// The numbers of a device's bus and of the device on it.
pub fn usb_bus_dev(busnum: &str, devnum: &str) -> (r: Option<(u32, u32)>)
    ensures
        match r {
            Some((bus, dev)) => lone_number(busnum@) == Some(bus as nat) && lone_number(devnum@)
                == Some(dev as nat),
            None => lone_number(busnum@) is None || lone_number(devnum@) is None,
        },
{
    let bus = parse_number(&trim(&chars_of(busnum)), u32::MAX as u64);
    let dev = parse_number(&trim(&chars_of(devnum)), u32::MAX as u64);
    match (bus, dev) {
        (Some(b), Some(d)) => Some((b as u32, d as u32)),
        _ => None,
    }
}

/// The speed that a device is listed with: a number of megabits behind which an
/// `M` stands.
pub open spec fn listed_speed(s: Seq<char>) -> Option<nat> {
    if s.len() == 0 || s.last() != 'M' {
        None
    } else {
        match lone_number(s.drop_last()) {
            Some(n) => if n > 0 {
                Some(n)
            } else {
                None
            },
            None => None,
        }
    }
}

/// The speed that a device is listed with.
pub fn speed_from_listing(text: &str) -> (r: Option<u32>)
    ensures
        match r {
            Some(mbps) => listed_speed(text@) == Some(mbps as nat),
            None => listed_speed(text@) is None,
        },
{
    let chars = chars_of(text);
    if chars.len() == 0 || chars[chars.len() - 1] != 'M' {
        return None;
    }
    let front = slice_chars(&chars, 0, chars.len() - 1);
    assert(front@ =~= text@.drop_last());
    match parse_number(&trim(&front), u32::MAX as u64) {
        Some(n) => {
            if n > 0 {
                Some(n as u32)
            } else {
                None
            }
        },
        None => None,
    }
}

/// The speed of a USB device.
#[derive(Debug, Clone, Copy, PartialEq, Eq, Structural)]
pub struct UsbSpeed {
    pub bus: u32,
    pub dev: u32,
    pub mbps: u32,
}

/// The first speed that a list has for a device.
pub open spec fn speed_of(list: Seq<UsbSpeed>, bus: u32, dev: u32) -> Option<u32>
    decreases list.len(),
{
    if list.len() == 0 {
        None
    } else if list[0].bus == bus && list[0].dev == dev {
        Some(list[0].mbps)
    } else {
        speed_of(list.skip(1), bus, dev)
    }
}

/// The first speed that a list has for a device.
pub fn find_speed(list: &Vec<UsbSpeed>, bus: u32, dev: u32) -> (r: Option<u32>)
    ensures
        r == speed_of(list@, bus, dev),
{
    let mut i: usize = 0;
    assert(list@.skip(0) =~= list@);
    while i < list.len()
        invariant
            i <= list@.len(),
            speed_of(list@, bus, dev) == speed_of(list@.skip(i as int), bus, dev),
        decreases list@.len() - i,
    {
        if list[i].bus == bus && list[i].dev == dev {
            return Some(list[i].mbps);
        }
        assert(list@.skip(i as int).skip(1) =~= list@.skip(i + 1));
        i = i + 1;
    }
    None
}

/// A mounted file system.
#[derive(Debug)]
pub struct MountEntry {
    pub mount_point: FilePath,
    pub source: String,
}

/// The places of some mounted file systems.
pub open spec fn mount_points(v: Seq<MountEntry>) -> Seq<Seq<u8>> {
    v.map_values(|m: MountEntry| m.mount_point@)
}

/// What some mounted file systems are.
pub open spec fn mount_sources(v: Seq<MountEntry>) -> Seq<Seq<char>> {
    v.map_values(|m: MountEntry| m.source@)
}

/// The mount that a path stands on: of those above it the deepest, and of
/// several as deep the last.
pub open spec fn deepest_mount(points: Seq<Seq<u8>>, path: Seq<u8>) -> Option<int>
    decreases points.len(),
{
    if points.len() == 0 {
        None
    } else {
        let before = deepest_mount(points.drop_last(), path);
        let here = points.len() - 1;
        if below(path, points[here]) && match before {
            None => true,
            Some(k) => components(points[k]).len() <= components(points[here]).len(),
        } {
            Some(here)
        } else {
            before
        }
    }
}

proof fn lemma_deepest_in_range(points: Seq<Seq<u8>>, path: Seq<u8>)
    ensures
        match deepest_mount(points, path) {
            Some(k) => 0 <= k < points.len(),
            None => true,
        },
    decreases points.len(),
{
    if points.len() > 0 {
        lemma_deepest_in_range(points.drop_last(), path);
    }
}

/// The mount that a path stands on.
pub fn best_mount(mounts: &Vec<MountEntry>, path: &FilePath) -> (r: Option<usize>)
    ensures
        match r {
            Some(k) => k < mounts@.len() && deepest_mount(mount_points(mounts@), path@) == Some(
                k as int,
            ),
            None => deepest_mount(mount_points(mounts@), path@) is None,
        },
{
    let ghost all = mount_points(mounts@);
    let mut best: Option<usize> = None;
    let mut depth: usize = 0;
    let mut i: usize = 0;
    while i < mounts.len()
        invariant
            i <= mounts@.len(),
            all == mount_points(mounts@),
            match best {
                Some(k) => k < i && deepest_mount(all.take(i as int), path@) == Some(k as int)
                    && depth == components(all[k as int]).len(),
                None => deepest_mount(all.take(i as int), path@) is None,
            },
        decreases mounts@.len() - i,
    {
        let ghost longer = all.take(i + 1);
        assert(longer.drop_last() =~= all.take(i as int));
        assert(longer[i as int] == mounts@[i as int].mount_point@);
        if path.starts_with(&mounts[i].mount_point) {
            let here = mounts[i].mount_point.component_count();
            if best.is_none() || depth <= here {
                best = Some(i);
                depth = here;
            }
        }
        i = i + 1;
    }
    assert(all.take(all.len() as int) =~= all);
    best
}

/// The mount that a path stands on is above it, and no mount above it is
/// deeper; and there is one wherever any mount is above it.
pub proof fn lemma_deepest_mount(points: Seq<Seq<u8>>, path: Seq<u8>, k: int)
    requires
        0 <= k < points.len(),
        below(path, points[k]),
    ensures
        match deepest_mount(points, path) {
            Some(best) => {
                &&& 0 <= best < points.len()
                &&& below(path, points[best])
                &&& components(points[k]).len() <= components(points[best]).len()
            },
            None => false,
        },
    decreases points.len(),
{
    let front = points.drop_last();
    lemma_deepest_in_range(front, path);
    if k < points.len() - 1 {
        assert(front[k] == points[k]);
        lemma_deepest_mount(front, path, k);
    } else if deepest_mount(front, path) is Some {
        lemma_deepest_is_above(front, path);
    }
}

proof fn lemma_deepest_is_above(points: Seq<Seq<u8>>, path: Seq<u8>)
    ensures
        match deepest_mount(points, path) {
            Some(k) => 0 <= k < points.len() && below(path, points[k]),
            None => true,
        },
    decreases points.len(),
{
    if points.len() > 0 {
        lemma_deepest_is_above(points.drop_last(), path);
    }
}

/// A mounted destination and the speed of its link, if it is known.
#[derive(Debug)]
pub struct MountedDestinationLink {
    pub mount_point: FilePath,
    pub usb_speed_mbps: Option<u32>,
}

/// The contents of a `MountedDestinationLink`.
pub struct LinkView {
    pub mount_point: Seq<u8>,
    pub usb_speed_mbps: Option<u32>,
}

impl View for MountedDestinationLink {
    type V = LinkView;

    open spec fn view(&self) -> LinkView {
        LinkView { mount_point: self.mount_point@, usb_speed_mbps: self.usb_speed_mbps }
    }
}

/// The contents of a list of links.
pub open spec fn link_views(v: Seq<MountedDestinationLink>) -> Seq<LinkView> {
    v.map_values(|l: MountedDestinationLink| l@)
}

/// Whether a list has a mount.
pub open spec fn lists_mount(list: Seq<LinkView>, mount: Seq<u8>) -> bool {
    exists|i: int|
        0 <= i < list.len() && components((#[trigger] list[i]).mount_point) == components(mount)
}

/// The list with a link, unless it has the mount.
pub open spec fn with_link(list: Seq<LinkView>, link: LinkView) -> Seq<LinkView> {
    if lists_mount(list, link.mount_point) {
        list
    } else {
        list.push(link)
    }
}

/// Whether a list has a mount.
pub fn link_known(links: &Vec<MountedDestinationLink>, mount_point: &FilePath) -> (r: bool)
    ensures
        r == lists_mount(link_views(links@), mount_point@),
{
    let ghost all = link_views(links@);
    let mut i: usize = 0;
    while i < links.len()
        invariant
            i <= links@.len(),
            all == link_views(links@),
            forall|j: int|
                0 <= j < i ==> components((#[trigger] all[j]).mount_point) != components(
                    mount_point@,
                ),
        decreases links@.len() - i,
    {
        assert(all[i as int] == links@[i as int]@);
        if links[i].mount_point.same_as(mount_point) {
            assert(components(all[i as int].mount_point) == components(mount_point@));
            return true;
        }
        i = i + 1;
    }
    false
}

/// Adds a link, unless the list has its mount.
pub fn add_link(links: &mut Vec<MountedDestinationLink>, mount_point: FilePath, speed: Option<u32>)
    ensures
        link_views(final(links)@) == with_link(
            link_views(old(links)@),
            (LinkView { mount_point: mount_point@, usb_speed_mbps: speed }),
        ),
{
    if link_known(links, &mount_point) {
        return;
    }
    let ghost before = link_views(links@);
    let link = MountedDestinationLink { mount_point, usb_speed_mbps: speed };
    links.push(link);
    assert(link_views(links@) =~= before.push(link@));
}

/// Whether links stand in the order of their mounts.
pub open spec fn by_mount(list: Seq<LinkView>) -> bool {
    forall|i: int, j: int|
        0 <= i <= j < list.len() ==> path_le(
            (#[trigger] list[i]).mount_point,
            (#[trigger] list[j]).mount_point,
        )
}

/// The links at the positions of `order`.
pub open spec fn picked_links(list: Seq<LinkView>, order: Seq<usize>) -> Seq<LinkView> {
    Seq::new(order.len(), |k: int| list[order[k] as int])
}

/// Whether `sorted` holds the links of `list` in the order of their mounts.
pub open spec fn sorted_by_mount(sorted: Seq<LinkView>, list: Seq<LinkView>) -> bool {
    &&& by_mount(sorted)
    &&& exists|order: Seq<usize>|
        #[trigger] rearranges(order, list.len()) && sorted == picked_links(list, order)
}

struct ByMount<'a> {
    links: &'a Vec<MountedDestinationLink>,
}

impl<'a> Ranking for ByMount<'a> {
    closed spec fn may_precede(&self, i: int, j: int) -> bool {
        path_le(self.links@[i].mount_point@, self.links@[j].mount_point@)
    }

    closed spec fn positions(&self) -> nat {
        self.links@.len()
    }

    proof fn lemma_ordered(&self, i: int, j: int, k: int) {
        let a = self.links@[i].mount_point@;
        let b = self.links@[j].mount_point@;
        let c = self.links@[k].mount_point@;
        lemma_path_le_total(a, b);
        if path_le(a, b) && path_le(b, c) {
            lemma_path_le_transitive(a, b, c);
        }
    }

    fn precedes(&self, i: usize, j: usize) -> (r: bool) {
        paths_in_order(&self.links[i].mount_point, &self.links[j].mount_point)
    }
}

/// The links in the order of their mounts.
pub fn sort_links(links: &Vec<MountedDestinationLink>) -> (r: Vec<MountedDestinationLink>)
    ensures
        sorted_by_mount(link_views(r@), link_views(links@)),
{
    let ranking = ByMount { links };
    let order = sort_positions(links.len(), &ranking);
    let ghost all = link_views(links@);
    let mut r: Vec<MountedDestinationLink> = Vec::new();
    let mut k: usize = 0;
    while k < order.len()
        invariant
            k <= order@.len(),
            rearranges(order@, links@.len()),
            all == link_views(links@),
            link_views(r@) == picked_links(all, order@).take(k as int),
        decreases order@.len() - k,
    {
        let ghost before = link_views(r@);
        let link = &links[order[k]];
        r.push(
            MountedDestinationLink {
                mount_point: link.mount_point.clone(),
                usb_speed_mbps: link.usb_speed_mbps,
            },
        );
        k = k + 1;
        assert(link_views(r@) =~= before.push(all[order@[k - 1] as int]));
        assert(picked_links(all, order@).take(k as int) =~= picked_links(all, order@).take(
            k - 1,
        ).push(all[order@[k - 1] as int]));
    }
    proof {
        let sorted = link_views(r@);
        assert(picked_links(all, order@).take(order@.len() as int) =~= picked_links(all, order@));
        assert(sorted == picked_links(all, order@));
        assert(all.len() == links@.len());
        assert(rearranges(order@, all.len()));
        assert forall|i: int, j: int| 0 <= i <= j < sorted.len() implies path_le(
            (#[trigger] sorted[i]).mount_point,
            (#[trigger] sorted[j]).mount_point,
        ) by {
            assert(ranking.may_precede(order@[i] as int, order@[j] as int));
        }
    }
    r
}

/// What follows the look at a destination's device.
#[derive(Debug, Clone, Copy, PartialEq, Eq, Structural)]
pub enum LinkStep {
    /// Go on with the next destination.
    Next,
    /// Ask the device itself for its speed.
    AskSpeed,
}

/// The survey of the links over which destinations are mounted.
pub struct LinkSurvey {
    mounts: Vec<MountEntry>,
    speeds: Vec<UsbSpeed>,
    links: Vec<MountedDestinationLink>,
}

/// The contents of a `LinkSurvey`.
pub struct SurveyView {
    /// The places of the mounted file systems.
    pub points: Seq<Seq<u8>>,
    /// What is mounted there.
    pub sources: Seq<Seq<char>>,
    /// The speeds that were listed.
    pub speeds: Seq<UsbSpeed>,
    /// The links so far, each mount once.
    pub links: Seq<LinkView>,
}

impl View for LinkSurvey {
    type V = SurveyView;

    closed spec fn view(&self) -> SurveyView {
        SurveyView {
            points: mount_points(self.mounts@),
            sources: mount_sources(self.mounts@),
            speeds: self.speeds@,
            links: link_views(self.links@),
        }
    }
}

impl SurveyView {
    /// With a link, unless its mount is known.
    pub open spec fn linked(self, k: int, speed: Option<u32>) -> SurveyView {
        SurveyView {
            links: with_link(
                self.links,
                (LinkView { mount_point: self.points[k], usb_speed_mbps: speed }),
            ),
            ..self
        }
    }

    /// After the look at the device of mount number `k`: one that is not on USB is
    /// left out, and so is a mount that is known; a listed speed is taken, and
    /// else the device is asked.
    pub open spec fn device_seen(self, k: int, usb: Option<(u32, u32)>) -> (SurveyView, LinkStep) {
        match usb {
            None => (self, LinkStep::Next),
            Some((bus, dev)) => if lists_mount(self.links, self.points[k]) {
                (self, LinkStep::Next)
            } else if speed_of(self.speeds, bus, dev) is Some {
                (self.linked(k, speed_of(self.speeds, bus, dev)), LinkStep::Next)
            } else {
                (self, LinkStep::AskSpeed)
            },
        }
    }
}

impl LinkSurvey {
    /// A survey that has not begun.
    pub fn new(mounts: Vec<MountEntry>, speeds: Vec<UsbSpeed>) -> (r: LinkSurvey)
        ensures
            r@ == (SurveyView {
                points: mount_points(mounts@),
                sources: mount_sources(mounts@),
                speeds: speeds@,
                links: Seq::empty(),
            }),
    {
        let r = LinkSurvey { mounts, speeds, links: Vec::new() };
        assert(r@.links =~= Seq::<LinkView>::empty());
        r
    }

    /// The number of the mount that a destination stands on.
    pub fn mount_of(&self, destination: &FilePath) -> (r: Option<usize>)
        ensures
            match r {
                Some(k) => k < self@.points.len() && deepest_mount(self@.points, destination@)
                    == Some(k as int),
                None => deepest_mount(self@.points, destination@) is None,
            },
    {
        assert(mount_points(self.mounts@).len() == self.mounts@.len());
        best_mount(&self.mounts, destination)
    }

    /// What is mounted as number `k`.
    pub fn source(&self, k: usize) -> (r: &String)
        requires
            k < self@.points.len(),
        ensures
            r@ == self@.sources[k as int],
    {
        assert(mount_points(self.mounts@).len() == self.mounts@.len());
        &self.mounts[k].source
    }

    /// Takes note of where the device of mount number `k` is on USB, if it is.
    pub fn device(&mut self, k: usize, usb: Option<(u32, u32)>) -> (r: LinkStep)
        requires
            k < old(self)@.points.len(),
        ensures
            (final(self)@, r) == old(self)@.device_seen(k as int, usb),
    {
        assert(mount_points(self.mounts@).len() == self.mounts@.len());
        let (bus, dev) = match usb {
            Some(place) => place,
            None => {
                return LinkStep::Next;
            },
        };
        if link_known(&self.links, &self.mounts[k].mount_point) {
            return LinkStep::Next;
        }
        match find_speed(&self.speeds, bus, dev) {
            Some(speed) => {
                self.speed(k, Some(speed));
                LinkStep::Next
            },
            None => LinkStep::AskSpeed,
        }
    }

    /// Takes note of the speed of mount number `k`, if it is known.
    pub fn speed(&mut self, k: usize, speed: Option<u32>)
        requires
            k < old(self)@.points.len(),
        ensures
            final(self)@ == old(self)@.linked(k as int, speed),
    {
        assert(mount_points(self.mounts@).len() == self.mounts@.len());
        let mount_point = self.mounts[k].mount_point.clone();
        add_link(&mut self.links, mount_point, speed);
    }

    /// The links in the order of their mounts.
    pub fn finish(self) -> (r: Vec<MountedDestinationLink>)
        ensures
            sorted_by_mount(link_views(r@), self@.links),
    {
        sort_links(&self.links)
    }
}

/// No mount is listed twice: a link is added only where its mount is not known,
/// and then the mount is.
pub proof fn lemma_mount_listed_once(survey: SurveyView, k: int, speed: Option<u32>)
    requires
        0 <= k < survey.points.len(),
    ensures
        lists_mount(survey.linked(k, speed).links, survey.points[k]),
        lists_mount(survey.links, survey.points[k]) ==> survey.linked(k, speed) == survey,
{
    let link = LinkView { mount_point: survey.points[k], usb_speed_mbps: speed };
    if !lists_mount(survey.links, survey.points[k]) {
        let longer = survey.links.push(link);
        assert(longer[longer.len() - 1] == link);
    }
}

/// Whether a line of the table of mounts is about a place.
pub open spec fn mounts_at(line: Seq<char>, place: Seq<char>) -> bool {
    words(line).len() >= 2 && words(line)[1] == place
}

/// Whether something is mounted at a place.
pub open spec fn is_mounted(table: Seq<char>, place: Seq<char>) -> bool {
    exists|i: int| 0 <= i < lines(table).len() && mounts_at(#[trigger] lines(table)[i], place)
}

/// Whether the table of mounts has a place.
pub fn table_has_mount(content: &str, place: &str) -> (r: bool)
    ensures
        r == is_mounted(content@, place@),
{
    let all = split_lines(&chars_of(content));
    let wanted = chars_of(place);
    let ghost table = texts(all@);
    let mut i: usize = 0;
    while i < all.len()
        invariant
            i <= all@.len(),
            table == texts(all@),
            table == lines(content@),
            wanted@ == place@,
            forall|j: int| 0 <= j < i ==> !mounts_at(#[trigger] table[j], place@),
        decreases all@.len() - i,
    {
        let parts = split_words(&all[i]);
        assert(texts(parts@).len() == parts@.len());
        assert(table[i as int] == all@[i as int]@);
        if parts.len() >= 2 {
            assert(parts@[1]@ == texts(parts@)[1]);
            if same_chars(&parts[1], &wanted) {
                assert(mounts_at(table[i as int], place@));
                return true;
            }
        }
        i = i + 1;
    }
    false
}

/// Whether the table of mounts has a path.
pub fn mounts_contains_path(content: &str, mount_point: &FilePath) -> (r: bool)
    ensures
        r == is_mounted(content@, utf8_lossy(mount_point@)),
{
    table_has_mount(content, decode_lossy(mount_point.as_bytes()).as_str())
}

/// Where a destination below the default one goes on a device: to the same
/// place below where the device is mounted. Other destinations go nowhere.
pub open spec fn moved_to(
    destination: Seq<u8>,
    default_destination: Seq<u8>,
    mount: Seq<u8>,
) -> Option<Seq<u8>> {
    match stripped(destination, default_destination) {
        Some(rest) => Some(joined(mount, rest)),
        None => None,
    }
}

/// The mappings that a device takes up.
pub open spec fn mappings_for(
    mappings: Seq<MappingView>,
    default_destination: Seq<u8>,
    mount: Seq<u8>,
) -> Seq<MappingView>
    decreases mappings.len(),
{
    if mappings.len() == 0 {
        Seq::empty()
    } else {
        let front = mappings_for(mappings.drop_last(), default_destination, mount);
        match moved_to(mappings.last().destination, default_destination, mount) {
            Some(destination) => front.push(
                (MappingView { source: mappings.last().source, destination }),
            ),
            None => front,
        }
    }
}

/// The mappings that a newly mounted device takes up: those to the default
/// destination, with the device in its place.
pub fn auto_queue_mappings_for_mount(
    mappings: &Vec<TransferMapping>,
    default_destination: &FilePath,
    mount_path: &FilePath,
) -> (r: Vec<TransferMapping>)
    ensures
        mapping_views(r@) == mappings_for(
            mapping_views(mappings@),
            default_destination@,
            mount_path@,
        ),
{
    let ghost all = mapping_views(mappings@);
    let mut r: Vec<TransferMapping> = Vec::new();
    let mut i: usize = 0;
    assert(mapping_views(r@) =~= mappings_for(all.take(0), default_destination@, mount_path@));
    while i < mappings.len()
        invariant
            i <= mappings@.len(),
            all == mapping_views(mappings@),
            mapping_views(r@) == mappings_for(
                all.take(i as int),
                default_destination@,
                mount_path@,
            ),
        decreases mappings@.len() - i,
    {
        let ghost before = mapping_views(r@);
        let mapping = &mappings[i];
        assert(all.take(i + 1).drop_last() =~= all.take(i as int));
        assert(all.take(i + 1).last() == mapping@);
        if let Some(rest) = mapping.destination.strip_prefix(default_destination) {
            let moved = TransferMapping {
                source: mapping.source.clone(),
                destination: mount_path.join(&rest),
            };
            r.push(moved);
            assert(mapping_views(r@) =~= before.push(moved@));
        }
        i = i + 1;
    }
    assert(all.take(all.len() as int) =~= all);
    r
}

/// A destination keeps its place when it moves to a device: behind the device
/// stand the components that stood behind the default destination.
pub proof fn lemma_place_kept(
    destination: Seq<u8>,
    default_destination: Seq<u8>,
    mount: Seq<u8>,
)
    requires
        below(destination, default_destination),
        components(default_destination).len() > 0,
    ensures
        moved_to(destination, default_destination, mount) is Some,
        components(moved_to(destination, default_destination, mount)->0) == components(mount)
            + components(destination).skip(components(default_destination).len() as int),
{
    lemma_stripped_components(destination, default_destination);
    let rest = stripped(destination, default_destination)->0;
    let n = components(default_destination).len() as int;
    lemma_components_nonempty(default_destination);
    lemma_components_nonempty(rest);
    if rest.len() > 0 {
        lemma_current_only_first(destination, n);
    }
    lemma_joined_components(mount, rest);
}

/// The devices that were taken up.
pub struct MountWatch {
    seen: PathSet,
}

impl View for MountWatch {
    type V = Seq<Seq<u8>>;

    closed spec fn view(&self) -> Seq<Seq<u8>> {
        self.seen@
    }
}

impl MountWatch {
    /// Whether no device stands in the list twice.
    pub closed spec fn wf(&self) -> bool {
        self.seen.wf()
    }

    /// No device was taken up yet.
    pub fn new() -> (r: MountWatch)
        ensures
            r.wf(),
            r@ == Seq::<Seq<u8>>::empty(),
    {
        MountWatch { seen: PathSet::new() }
    }

    /// Tells whether a path is a device to take up: a directory at which one is
    /// mounted, and which was not taken up before.
    pub fn notice(&mut self, path: &FilePath, is_dir: bool, mounted: bool) -> (r: bool)
        requires
            old(self).wf(),
        ensures
            final(self).wf(),
            r == (is_dir && mounted && !holds(old(self)@, path@)),
            final(self)@ == if is_dir && mounted {
                with_path(old(self)@, path@)
            } else {
                old(self)@
            },
    {
        if !is_dir || !mounted {
            return false;
        }
        self.seen.insert(path.clone())
    }
}

/// A device is taken up once: a path that was taken up is never taken up again,
/// whatever else is noticed in between.
pub proof fn lemma_taken_up_once(seen: Seq<Seq<u8>>, path: Seq<u8>, other: Seq<u8>)
    ensures
        holds(with_path(seen, path), path),
        holds(seen, path) ==> holds(with_path(seen, other), path),
{
    crate::pathset::lemma_holds_push(seen, path, path);
    crate::pathset::lemma_holds_push(seen, other, path);
}

/// Whether `picked` are the numbers of the mappings to the default destination or
/// below it: all of them, in their order.
pub open spec fn all_below_default(
    picked: Seq<int>,
    mappings: Seq<MappingView>,
    default_destination: Seq<u8>,
) -> bool {
    &&& forall|k: int|
        0 <= k < picked.len() ==> 0 <= #[trigger] picked[k] < mappings.len() && below(
            mappings[picked[k]].destination,
            default_destination,
        )
    &&& forall|j: int, k: int|
        0 <= j < k < picked.len() ==> #[trigger] picked[j] < #[trigger] picked[k]
    &&& forall|i: int|
        0 <= i < mappings.len() && below((#[trigger] mappings[i]).destination, default_destination)
            ==> picked.contains(i)
}

/// Whether `taken` are the picked mappings on a device: each with its own source,
/// and behind the device what stood behind the default destination.
pub open spec fn moved_there(
    taken: Seq<MappingView>,
    picked: Seq<int>,
    mappings: Seq<MappingView>,
    default_destination: Seq<u8>,
    mount: Seq<u8>,
) -> bool {
    &&& taken.len() == picked.len()
    &&& forall|k: int|
        0 <= k < taken.len() ==> {
            let mapping = mappings[picked[k]];
            &&& (#[trigger] taken[k]).source == mapping.source
            &&& taken[k].destination == joined(
                mount,
                stripped(mapping.destination, default_destination)->0,
            )
            &&& components(default_destination).len() > 0 ==> components(taken[k].destination)
                == components(mount) + components(mapping.destination).skip(
                components(default_destination).len() as int,
            )
        }
}

/// A device takes up every mapping to the default destination or below it, each as
/// often as it is listed, and no other; they keep their order, their sources, and
/// their places below the device.
pub proof fn lemma_every_mapping_taken_up(
    mappings: Seq<MappingView>,
    default_destination: Seq<u8>,
    mount: Seq<u8>,
)
    ensures
        exists|picked: Seq<int>| #[trigger]
            all_below_default(picked, mappings, default_destination) && moved_there(
                mappings_for(mappings, default_destination, mount),
                picked,
                mappings,
                default_destination,
                mount,
            ),
    decreases mappings.len(),
{
    if mappings.len() == 0 {
        let none = Seq::<int>::empty();
        assert(all_below_default(none, mappings, default_destination));
    } else {
        let front = mappings.drop_last();
        let n = front.len() as int;
        lemma_every_mapping_taken_up(front, default_destination, mount);
        let before = choose|picked: Seq<int>| #[trigger]
            all_below_default(picked, front, default_destination) && moved_there(
                mappings_for(front, default_destination, mount),
                picked,
                front,
                default_destination,
                mount,
            );
        let taken = mappings_for(mappings, default_destination, mount);
        let last = mappings.last().destination;
        let picked = if below(last, default_destination) {
            before.push(n)
        } else {
            before
        };
        if below(last, default_destination) && components(default_destination).len() > 0 {
            lemma_place_kept(last, default_destination, mount);
        }
        assert forall|i: int|
            0 <= i < mappings.len() && below(
                (#[trigger] mappings[i]).destination,
                default_destination,
            ) implies picked.contains(i) by {
            if i < n {
                assert(front[i] == mappings[i]);
                assert(before.contains(i));
                let j = choose|j: int| 0 <= j < before.len() && before[j] == i;
                assert(picked[j] == i);
            } else {
                assert(picked[before.len() as int] == n);
            }
        }
        assert forall|k: int| 0 <= k < picked.len() implies 0 <= #[trigger] picked[k]
            < mappings.len() && below(mappings[picked[k]].destination, default_destination) by {
            if k < before.len() {
                assert(before[k] == picked[k]);
                assert(front[before[k]] == mappings[before[k]]);
            }
        }
        assert forall|j: int, k: int| 0 <= j < k < picked.len() implies #[trigger] picked[j]
            < #[trigger] picked[k] by {
            assert(before[j] == picked[j]);
            if k < before.len() {
                assert(before[k] == picked[k]);
            }
        }
        assert(all_below_default(picked, mappings, default_destination));
        assert forall|k: int| 0 <= k < taken.len() implies {
            let mapping = mappings[picked[k]];
            &&& (#[trigger] taken[k]).source == mapping.source
            &&& taken[k].destination == joined(
                mount,
                stripped(mapping.destination, default_destination)->0,
            )
            &&& components(default_destination).len() > 0 ==> components(taken[k].destination)
                == components(mount) + components(mapping.destination).skip(
                components(default_destination).len() as int,
            )
        } by {
            let earlier = mappings_for(front, default_destination, mount);
            if k < before.len() {
                assert(taken[k] == earlier[k]);
                assert(before[k] == picked[k]);
                assert(front[before[k]] == mappings[before[k]]);
            }
        }
    }
}

/// For each mapping to the default destination or below it there is one with its
/// source at its place on the device, and there are no others.
pub proof fn lemma_taken_up_exactly(
    mappings: Seq<MappingView>,
    default_destination: Seq<u8>,
    mount: Seq<u8>,
)
    ensures
        forall|i: int|
            0 <= i < mappings.len() && below(
                (#[trigger] mappings[i]).destination,
                default_destination,
            ) ==> mappings_for(mappings, default_destination, mount).contains(
                (MappingView {
                    source: mappings[i].source,
                    destination: joined(
                        mount,
                        stripped(mappings[i].destination, default_destination)->0,
                    ),
                }),
            ),
        (exists|i: int|
            0 <= i < mappings.len() && below(
                (#[trigger] mappings[i]).destination,
                default_destination,
            )) || mappings_for(mappings, default_destination, mount).len() == 0,
{
    lemma_every_mapping_taken_up(mappings, default_destination, mount);
    let taken = mappings_for(mappings, default_destination, mount);
    let picked = choose|picked: Seq<int>| #[trigger]
        all_below_default(picked, mappings, default_destination) && moved_there(
            taken,
            picked,
            mappings,
            default_destination,
            mount,
        );
    assert forall|i: int|
        0 <= i < mappings.len() && below(
            (#[trigger] mappings[i]).destination,
            default_destination,
        ) implies taken.contains(
        (MappingView {
            source: mappings[i].source,
            destination: joined(mount, stripped(mappings[i].destination, default_destination)->0),
        }),
    ) by {
        let k = choose|k: int| 0 <= k < picked.len() && picked[k] == i;
        assert(taken[k].source == mappings[i].source);
    }
    if taken.len() > 0 {
        assert(0 <= picked[0] < mappings.len());
        assert(below(mappings[picked[0]].destination, default_destination));
    }
}

/// Of several mounts as deep above a path the last is taken, and none only where
/// no mount is above it.
pub proof fn lemma_last_of_deepest(points: Seq<Seq<u8>>, path: Seq<u8>)
    ensures
        match deepest_mount(points, path) {
            Some(best) => {
                &&& 0 <= best < points.len()
                &&& below(path, points[best])
                &&& forall|k: int|
                    best < k < points.len() && below(path, #[trigger] points[k]) ==> components(
                        points[k],
                    ).len() < components(points[best]).len()
                &&& forall|k: int|
                    0 <= k < points.len() && below(path, #[trigger] points[k]) ==> components(
                        points[k],
                    ).len() <= components(points[best]).len()
            },
            None => forall|k: int| 0 <= k < points.len() ==> !below(path, #[trigger] points[k]),
        },
    decreases points.len(),
{
    if points.len() > 0 {
        let front = points.drop_last();
        lemma_last_of_deepest(front, path);
        assert forall|k: int| 0 <= k < front.len() implies #[trigger] points[k] == front[k] by {}
        if let Some(best) = deepest_mount(points, path) {
            assert forall|k: int|
                0 <= k < points.len() && below(path, #[trigger] points[k]) implies components(
                points[k],
            ).len() <= components(points[best]).len() && (best < k ==> components(points[k]).len()
                < components(points[best]).len()) by {
                if k < front.len() {
                    assert(below(path, front[k]));
                }
            }
        }
    }
}

/// A device's name is cut only behind what belongs to it: what is cut off are
/// letters `p` and then digits, and what is left ends in neither.
pub proof fn lemma_partition_cut(s: Seq<char>)
    ensures
        without_digits(s).is_prefix_of(s),
        forall|i: int| without_digits(s).len() <= i < s.len() ==> is_digit(#[trigger] s[i]),
        without_digits(s).len() > 0 ==> !is_digit(without_digits(s).last()),
        without_p(s).is_prefix_of(s),
        forall|i: int| without_p(s).len() <= i < s.len() ==> #[trigger] s[i] == 'p',
        without_p(s).len() > 0 ==> without_p(s).last() != 'p',
    decreases s.len(),
{
    if s.len() > 0 {
        let front = s.drop_last();
        lemma_partition_cut(front);
        assert forall|i: int| without_digits(s).len() <= i < s.len() implies is_digit(
            #[trigger] s[i],
        ) by {
            if i < front.len() {
                assert(is_digit(front[i]));
            }
        }
        assert forall|i: int| without_p(s).len() <= i < s.len() implies #[trigger] s[i]
            == 'p' by {
            if i < front.len() {
                assert(front[i] == 'p');
            }
        }
    }
}

/// What has a device below it is just what stands in `/dev` under a name, and the
/// device's name begins that name.
pub proof fn lemma_device_of_source(source: Seq<char>, canonical: Option<Seq<u8>>)
    ensures
        ({
            let place = match canonical {
                Some(p) => p,
                None => text_path(source),
            };
            &&& root_device(source, canonical) is Some <==> begins(source, "/dev/"@)
                && file_name_of(place) is Some
            &&& root_device(source, canonical) matches Some(name) ==> name.is_prefix_of(
                utf8_lossy(file_name_of(place)->0),
            ) && forall|i: int|
                name.len() <= i < utf8_lossy(file_name_of(place)->0).len() ==> is_digit(
                    #[trigger] utf8_lossy(file_name_of(place)->0)[i],
                ) || utf8_lossy(file_name_of(place)->0)[i] == 'p'
        }),
{
    let place = match canonical {
        Some(p) => p,
        None => text_path(source),
    };
    if begins(source, "/dev/"@) && file_name_of(place) is Some {
        let whole = utf8_lossy(file_name_of(place)->0);
        let cut = without_digits(whole);
        lemma_partition_cut(whole);
        lemma_partition_cut(cut);
        assert forall|i: int| 0 <= i < cut.len() implies #[trigger] cut[i] == whole[i] by {}
        assert(without_p(cut).is_prefix_of(whole));
    }
}

/// The speed of a device is one that the list has for it, the first of those, and
/// is unknown only where the list has none.
pub proof fn lemma_speed_of_first(list: Seq<UsbSpeed>, bus: u32, dev: u32)
    ensures
        match speed_of(list, bus, dev) {
            Some(mbps) => exists|i: int|
                0 <= i < list.len() && (#[trigger] list[i]) == (UsbSpeed { bus, dev, mbps })
                    && forall|j: int|
                    0 <= j < i ==> (#[trigger] list[j]).bus != bus || list[j].dev != dev,
            None => forall|i: int|
                0 <= i < list.len() ==> (#[trigger] list[i]).bus != bus || list[i].dev != dev,
        },
    decreases list.len(),
{
    if list.len() > 0 {
        if list[0].bus == bus && list[0].dev == dev {
            assert(list[0] == (UsbSpeed { bus, dev, mbps: list[0].mbps }));
        } else {
            let rest = list.skip(1);
            lemma_speed_of_first(rest, bus, dev);
            assert forall|i: int| 0 <= i < rest.len() implies #[trigger] rest[i] == list[i
                + 1] by {}
            if let Some(mbps) = speed_of(list, bus, dev) {
                let i = choose|i: int|
                    0 <= i < rest.len() && (#[trigger] rest[i]) == (UsbSpeed { bus, dev, mbps })
                        && forall|j: int|
                        0 <= j < i ==> (#[trigger] rest[j]).bus != bus || rest[j].dev != dev;
                assert(list[i + 1] == rest[i]);
                assert forall|j: int| 0 <= j < i + 1 implies (#[trigger] list[j]).bus != bus
                    || list[j].dev != dev by {
                    if j > 0 {
                        assert(rest[j - 1] == list[j]);
                    }
                }
            } else {
                assert forall|i: int| 0 <= i < list.len() implies (#[trigger] list[i]).bus != bus
                    || list[i].dev != dev by {
                    if i > 0 {
                        assert(rest[i - 1] == list[i]);
                    }
                }
            }
        }
    }
}

/// A listed speed is a positive number of megabits before an `M`, and every such
/// text has one.
pub proof fn lemma_listed_speed(s: Seq<char>, n: nat)
    ensures
        listed_speed(s) == Some(n) <==> s.len() > 0 && s.last() == 'M' && n > 0 && number(
            trimmed_text(s.drop_last()),
            0xffff_ffff,
        ) == Some(n),
{
}

/// A survey asks a device for its speed exactly where it is on USB, its mount is
/// new and no speed is listed for it; a link is added for each device on USB whose
/// mount is new, with the listed speed, and else nothing changes.
pub proof fn lemma_survey_decides(survey: SurveyView, k: int, usb: Option<(u32, u32)>)
    requires
        0 <= k < survey.points.len(),
    ensures
        ({
            let (after, step) = survey.device_seen(k, usb);
            let new = usb is Some && !lists_mount(survey.links, survey.points[k]);
            let listed = match usb {
                Some((bus, dev)) => speed_of(survey.speeds, bus, dev),
                None => None,
            };
            &&& step is AskSpeed <==> new && listed is None
            &&& after.links == if new && listed is Some {
                survey.links.push(
                    (LinkView { mount_point: survey.points[k], usb_speed_mbps: listed }),
                )
            } else {
                survey.links
            }
            &&& (after.points, after.sources, after.speeds) == (
                survey.points,
                survey.sources,
                survey.speeds,
            )
        }),
{
}

/// Sorting links loses none and adds none.
pub proof fn lemma_sorting_keeps_links(sorted: Seq<LinkView>, list: Seq<LinkView>, i: int)
    requires
        sorted_by_mount(sorted, list),
        0 <= i < list.len(),
    ensures
        sorted.len() == list.len(),
        sorted.contains(list[i]),
        list.contains(sorted[i]),
{
    let order = choose|order: Seq<usize>| #[trigger]
        rearranges(order, list.len()) && sorted == picked_links(list, order);
    crate::queue::lemma_rearranges_covers(order, list.len(), i);
    let k = choose|k: int| 0 <= k < order.len() && order[k] == i;
    assert(sorted[k] == list[i]);
    assert(sorted[i] == list[order[i] as int]);
}

/// A place is mounted exactly where a line of the table has it as its second word.
pub proof fn lemma_mounted_by_a_line(table: Seq<char>, place: Seq<char>, i: int)
    ensures
        0 <= i < lines(table).len() && words(lines(table)[i]).len() >= 2 && words(
            lines(table)[i],
        )[1] == place ==> is_mounted(table, place),
        (forall|k: int|
            0 <= k < lines(table).len() ==> words(#[trigger] lines(table)[k]).len() < 2 || words(
                lines(table)[k],
            )[1] != place) ==> !is_mounted(table, place),
{
    if 0 <= i < lines(table).len() && words(lines(table)[i]).len() >= 2 && words(
        lines(table)[i],
    )[1] == place {
        assert(mounts_at(lines(table)[i], place));
    }
}

/// Devices are waited for in the common place, and in that of the user where the
/// user is known.
pub proof fn lemma_places_watched(user: Seq<char>)
    ensures
        watch_places(None) == seq![text_path("/media"@)],
        watch_places(Some(user)).len() == 2,
        watch_places(Some(user))[0] == watch_places(None)[0],
        watch_places(Some(user))[1] == joined(text_path("/run/media"@), text_path(user)),
{
}

/// Each mount point is listed once, with the link that was found first; and a number
/// that stands alone may have space around it.
pub proof fn lemma_links_once(list: Seq<LinkView>, link: LinkView, s: Seq<char>)
    ensures
        list.is_prefix_of(with_link(list, link)),
        (exists|i: int|
            0 <= i < list.len() && components((#[trigger] list[i]).mount_point) == components(
                link.mount_point,
            )) ==> with_link(list, link) == list,
        (forall|i: int|
            0 <= i < list.len() ==> components((#[trigger] list[i]).mount_point) != components(
                link.mount_point,
            )) ==> with_link(list, link) == list.push(link),
        lone_number(s) == number(trimmed_text(s), 0xffff_ffff),
{
}

/// Sorted links stand in the order of their mount points.
pub proof fn lemma_links_in_order(sorted: Seq<LinkView>, list: Seq<LinkView>, i: int, j: int)
    requires
        sorted_by_mount(sorted, list),
        0 <= i <= j < sorted.len(),
    ensures
        path_le(sorted[i].mount_point, sorted[j].mount_point),
{
}

} // verus!
