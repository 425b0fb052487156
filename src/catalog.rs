//! Release listing records, the flattened asset catalog and the resolver.

use vstd::prelude::*;
use core::cmp::Ordering;
use crate::error::ErrorKind;
use crate::platform::{classify_platform, platform_of, Platform, PlatformModel};
use crate::version::{
    channel_of, lemma_version_order, newer, parse_version, semver_parse, strip_v, version_order,
    Version, VersionModel,
};
use crate::order::flip;

verus! {

/// An account as the upstream API describes it.
#[derive(Clone, Debug)]
pub struct User {
    pub login: String,
    pub id: u64,
    pub node_id: String,
    pub avatar_url: String,
    pub gravatar_id: String,
    pub url: String,
    pub html_url: String,
    pub followers_url: String,
    pub following_url: String,
    pub gists_url: String,
    pub starred_url: String,
    pub subscriptions_url: String,
    pub organizations_url: String,
    pub repos_url: String,
    pub events_url: String,
    pub received_events_url: String,
    pub site_admin: bool,
}

/// One file attached to an upstream release.
#[derive(Clone, Debug)]
pub struct Asset {
    pub url: String,
    pub id: u64,
    pub node_id: String,
    pub name: String,
    pub label: String,
    pub uploader: User,
    pub content_type: String,
    pub state: String,
    pub size: u64,
    pub download_count: u64,
    pub created_at: String,
    pub updated_at: String,
    pub browser_download_url: String,
}

/// One upstream release as the listing endpoint returns it.
#[derive(Clone, Debug)]
pub struct Release {
    pub url: String,
    pub assets_url: String,
    pub upload_url: String,
    pub html_url: String,
    pub id: u64,
    pub node_id: String,
    pub author: User,
    pub tag_name: String,
    pub target_commitish: String,
    pub name: String,
    pub draft: bool,
    pub prerelease: bool,
    pub created_at: String,
    pub published_at: String,
    pub assets: Vec<Asset>,
}

/// One concrete downloadable file of the catalog.
#[derive(Clone, Debug)]
pub struct GithubRelease {
    pub platform: Platform,
    pub version: Version,
    pub filename: String,
    pub download_url: String,
    pub asset_id: u64,
}

pub struct RecordModel {
    pub platform: PlatformModel,
    pub version: VersionModel,
    pub filename: Seq<char>,
    pub download_url: Seq<char>,
    pub asset_id: u64,
}

impl View for GithubRelease {
    type V = RecordModel;

    open spec fn view(&self) -> RecordModel {
        RecordModel {
            platform: self.platform@,
            version: self.version@,
            filename: self.filename@,
            download_url: self.download_url@,
            asset_id: self.asset_id,
        }
    }
}

pub open spec fn records_view(s: Seq<GithubRelease>) -> Seq<RecordModel> {
    s.map_values(|r: GithubRelease| r@)
}

/// The record of one asset of a release tagged `tag`; `None` where the file
/// name has no platform or the tag is no version.
pub open spec fn asset_record(tag: Seq<char>, a: Asset) -> Option<RecordModel> {
    match (platform_of(a.name@), semver_parse(strip_v(tag))) {
        (PlatformModel::Unrecognized(_), _) => None,
        (_, None) => None,
        (p, Some(v)) => Some(
            RecordModel {
                platform: p,
                version: v,
                filename: a.name@,
                download_url: a.url@,
                asset_id: a.id,
            },
        ),
    }
}

/// The records of a release's assets, in order, skipping those without one.
pub open spec fn asset_records(tag: Seq<char>, assets: Seq<Asset>) -> Seq<RecordModel>
    decreases assets.len(),
{
    if assets.len() == 0 {
        Seq::empty()
    } else {
        let rest = asset_records(tag, assets.drop_last());
        match asset_record(tag, assets.last()) {
            Some(r) => rest.push(r),
            None => rest,
        }
    }
}

/// The catalog of a listing: every release's records, in listing order.
pub open spec fn catalog_of(releases: Seq<Release>) -> Seq<RecordModel>
    decreases releases.len(),
{
    if releases.len() == 0 {
        Seq::empty()
    } else {
        catalog_of(releases.drop_last()) + asset_records(
            releases.last().tag_name@,
            releases.last().assets@,
        )
    }
}

/// A record whose file name yields a platform.
pub open spec fn recognized(r: RecordModel) -> bool {
    !(r.platform is Unrecognized)
}

proof fn lemma_asset_records_recognized(tag: Seq<char>, assets: Seq<Asset>)
    ensures
        forall|i: int|
            0 <= i < asset_records(tag, assets).len() ==> recognized(
                #[trigger] asset_records(tag, assets)[i],
            ),
    decreases assets.len(),
{
    if assets.len() > 0 {
        lemma_asset_records_recognized(tag, assets.drop_last());
        let rest = asset_records(tag, assets.drop_last());
        if let Some(r) = asset_record(tag, assets.last()) {
            assert(recognized(r));
            assert forall|i: int| 0 <= i < rest.push(r).len() implies recognized(
                #[trigger] rest.push(r)[i],
            ) by {
                if i < rest.len() {
                    assert(rest.push(r)[i] == rest[i]);
                }
            }
        }
    }
}

proof fn lemma_catalog_recognized(releases: Seq<Release>)
    ensures
        forall|i: int|
            0 <= i < catalog_of(releases).len() ==> recognized(#[trigger] catalog_of(releases)[i]),
    decreases releases.len(),
{
    if releases.len() > 0 {
        lemma_catalog_recognized(releases.drop_last());
        lemma_asset_records_recognized(releases.last().tag_name@, releases.last().assets@);
        let a = catalog_of(releases.drop_last());
        let b = asset_records(releases.last().tag_name@, releases.last().assets@);
        assert forall|i: int| 0 <= i < (a + b).len() implies recognized(#[trigger] (a + b)[i]) by {
            if i < a.len() {
                assert((a + b)[i] == a[i]);
            } else {
                assert((a + b)[i] == b[i - a.len()]);
            }
        }
    }
}

/// Flattens a listing into per-asset records. An asset whose name has no
/// platform, or whose release tag is no version, is left out.
pub fn build_catalog(releases: &Vec<Release>) -> (r: Vec<GithubRelease>)
    ensures
        records_view(r@) == catalog_of(releases@),
        forall|i: int| 0 <= i < r.len() ==> recognized(#[trigger] r@[i]@),
{
    let mut out: Vec<GithubRelease> = Vec::new();
    let mut i: usize = 0;
    while i < releases.len()
        invariant
            i <= releases.len(),
            records_view(out@) == catalog_of(releases@.subrange(0, i as int)),
        decreases releases.len() - i,
    {
        let rel = &releases[i];
        let ghost before = records_view(out@);
        let mut j: usize = 0;
        while j < rel.assets.len()
            invariant
                i < releases.len(),
                *rel == releases@[i as int],
                j <= rel.assets.len(),
                records_view(out@) == before + asset_records(
                    rel.tag_name@,
                    rel.assets@.subrange(0, j as int),
                ),
            decreases rel.assets.len() - j,
        {
            let a = &rel.assets[j];
            let ghost pre = rel.assets@.subrange(0, j as int);
            assert(rel.assets@.subrange(0, j + 1).drop_last() =~= pre);
            match classify_platform(a.name.as_str()) {
                Platform::Unrecognized(_) => {},
                p => match parse_version(rel.tag_name.as_str()) {
                    Ok(v) => {
                        out.push(
                            GithubRelease {
                                platform: p,
                                version: v,
                                filename: a.name.clone(),
                                download_url: a.url.clone(),
                                asset_id: a.id,
                            },
                        );
                        assert(records_view(out@) =~= records_view(out@).drop_last().push(
                            out@.last()@,
                        ));
                        assert(records_view(out@).drop_last() =~= before + asset_records(
                            rel.tag_name@,
                            pre,
                        ));
                    },
                    Err(_) => {},
                },
            }
            j = j + 1;
        }
        assert(rel.assets@.subrange(0, rel.assets.len() as int) =~= rel.assets@);
        assert(releases@.subrange(0, i + 1).drop_last() =~= releases@.subrange(0, i as int));
        i = i + 1;
    }
    assert(releases@.subrange(0, releases.len() as int) =~= releases@);
    proof {
        lemma_catalog_recognized(releases@);
        assert forall|i: int| 0 <= i < out.len() implies recognized(#[trigger] out@[i]@) by {
            assert(records_view(out@)[i] == out@[i]@);
        }
    }
    out
}

/// A record answers the query: same platform, same channel, strictly newer.
pub open spec fn qualifies(r: RecordModel, p: PlatformModel, v: VersionModel) -> bool {
    &&& r.platform == p
    &&& channel_of(r.version) == channel_of(v)
    &&& newer(r.version, v)
}

/// Index `i` is the resolution of the query: it qualifies, no qualifying
/// record is newer, and every qualifying record before it is older. Of
/// several newest records of equal precedence the first is chosen.
pub open spec fn is_resolution(c: Seq<RecordModel>, p: PlatformModel, v: VersionModel, i: int) -> bool {
    &&& 0 <= i < c.len()
    &&& qualifies(c[i], p, v)
    &&& forall|j: int| 0 <= j < c.len() && qualifies(c[j], p, v) ==> !newer(c[j].version, c[i].version)
    &&& forall|j: int| 0 <= j < i && qualifies(c[j], p, v) ==> newer(c[i].version, c[j].version)
}

pub proof fn lemma_newer_facts(a: VersionModel, b: VersionModel, c: VersionModel)
    ensures
        !newer(a, a),
        newer(a, b) ==> !newer(b, a),
        !newer(a, b) && newer(c, b) ==> newer(c, a),
{
    lemma_version_order();
    let o = version_order();
    assert(o(a, a) == flip(o(a, a)));
    assert(o(a, b) == flip(o(b, a)));
    assert(o(b, c) == flip(o(c, b)));
    assert(o(a, c) == flip(o(c, a)));
    if !newer(a, b) && newer(c, b) {
        assert(o(a, b) != Ordering::Greater && o(b, c) != Ordering::Greater);
        assert(o(a, c) != Ordering::Greater);
        if o(a, c) == Ordering::Equal {
            assert(o(c, a) != Ordering::Greater && o(a, b) != Ordering::Greater);
            assert(o(c, b) != Ordering::Greater);
        }
    }
}

/// A resolution stays on the query's channel: a stable query gets a stable
/// record, a pre-release query a record of the same pre-release channel.
pub proof fn lemma_channel_isolation(c: Seq<RecordModel>, p: PlatformModel, v: VersionModel, i: int)
    requires
        is_resolution(c, p, v, i),
    ensures
        channel_of(c[i].version) == channel_of(v),
        c[i].version.pre.len() == 0 <==> v.pre.len() == 0,
{
}

/// Picks the newest record for a platform and installed version among those
/// of the same channel that are strictly newer.
pub fn resolve_release<'a>(catalog: &'a Vec<GithubRelease>, platform: &Platform, version: &Version) -> (r: Result<&'a GithubRelease, ErrorKind>)
    ensures
        match r {
            Ok(x) => exists|i: int|
                is_resolution(records_view(catalog@), platform@, version@, i) && catalog@[i] == *x,
            Err(e) => (e matches ErrorKind::NoCompatibleVersionFound) && (forall|j: int|
                0 <= j < catalog.len() ==> !qualifies(catalog@[j]@, platform@, version@)),
        },
{
    let ghost c = records_view(catalog@);
    let mut best: Option<usize> = None;
    let mut k: usize = 0;
    while k < catalog.len()
        invariant
            c == records_view(catalog@),
            k <= catalog.len(),
            match best {
                Some(b) => {
                    &&& b < k
                    &&& qualifies(c[b as int], platform@, version@)
                    &&& forall|j: int|
                        0 <= j < k && qualifies(c[j], platform@, version@) ==> !newer(
                            c[j].version,
                            c[b as int].version,
                        )
                    &&& forall|j: int|
                        0 <= j < b && qualifies(c[j], platform@, version@) ==> newer(
                            c[b as int].version,
                            c[j].version,
                        )
                },
                None => forall|j: int| 0 <= j < k ==> !qualifies(c[j], platform@, version@),
            },
        decreases catalog.len() - k,
    {
        let rec = &catalog[k];
        assert(c[k as int] == rec@);
        if rec.platform.same_as(platform) && rec.version.same_channel(version)
            && rec.version.is_newer_than(version) {
            match best {
                None => {
                    proof {
                        lemma_newer_facts(c[k as int].version, c[k as int].version, c[k as int].version);
                    }
                    best = Some(k);
                },
                Some(b) => {
                    if rec.version.is_newer_than(&catalog[b].version) {
                        proof {
                            assert forall|j: int|
                                0 <= j < k + 1 && qualifies(c[j], platform@, version@) implies !newer(
                                c[j].version,
                                c[k as int].version,
                            ) && (j < k ==> newer(c[k as int].version, c[j].version)) by {
                                lemma_newer_facts(c[j].version, c[b as int].version, c[k as int].version);
                                lemma_newer_facts(c[k as int].version, c[j].version, c[k as int].version);
                            }
                        }
                        best = Some(k);
                    } else {
                        proof {
                            lemma_newer_facts(c[k as int].version, c[k as int].version, c[k as int].version);
                        }
                    }
                },
            }
        }
        k = k + 1;
    }
    match best {
        Some(b) => {
            let x = &catalog[b];
            assert(is_resolution(c, platform@, version@, b as int) && catalog@[b as int] == *x);
            Ok(x)
        },
        None => {
            assert forall|j: int| 0 <= j < catalog.len() implies !qualifies(
                catalog@[j]@,
                platform@,
                version@,
            ) by {
                assert(c[j] == catalog@[j]@);
            }
            Err(ErrorKind::NoCompatibleVersionFound)
        },
    }
}

/// The first record whose file name is exactly `filename`.
pub fn get_release_by_filename<'a>(catalog: &'a Vec<GithubRelease>, filename: &str) -> (r: Result<&'a GithubRelease, ErrorKind>)
    ensures
        match r {
            Ok(x) => exists|i: int|
                0 <= i < catalog.len() && catalog@[i] == *x && x.filename@ == filename@ && forall|j: int|
                    0 <= j < i ==> catalog@[j].filename@ != filename@,
            Err(e) => (e matches ErrorKind::NoCompatibleVersionFound) && (forall|j: int|
                0 <= j < catalog.len() ==> catalog@[j].filename@ != filename@),
        },
{
    let wanted = String::from_str(filename);
    let mut k: usize = 0;
    while k < catalog.len()
        invariant
            wanted@ == filename@,
            k <= catalog.len(),
            forall|j: int| 0 <= j < k ==> catalog@[j].filename@ != filename@,
        decreases catalog.len() - k,
    {
        if catalog[k].filename == wanted {
            return Ok(&catalog[k]);
        }
        k = k + 1;
    }
    Err(ErrorKind::NoCompatibleVersionFound)
}

} // verus!
