//! Deterministic HTTP route overlap analysis.

use vstd::prelude::*;
use crate::text::{utf8, starts_with, ends_with, has_byte, slice_eq, slice_starts_with,
    slice_ends_with, slice_has_byte, str_eq};
use crate::checks::{contains_string, vec_contains_str, distinct_strings};
use crate::error::{ConfigError, decimal, decimal_text, join2, join3, join4};
use crate::schema::{RouteConfig, HeaderMatch};

verus! {

/// The text of an optional string.
pub open spec fn opt_text(o: Option<String>) -> Option<Seq<char>> {
    match o {
        Some(s) => Some(s@),
        None => None,
    }
}

/// Both lists have the same length and every text of `l` occurs in `r`.
pub open spec fn same_string_set_spec(l: Seq<String>, r: Seq<String>) -> bool {
    l.len() == r.len() && forall|i: int| 0 <= i < l.len() ==> contains_string(r, (#[trigger] l[i])@)
}

pub open spec fn header_in(hs: Seq<HeaderMatch>, h: HeaderMatch) -> bool {
    exists|j: int|
        0 <= j < hs.len() && (#[trigger] hs[j]).name@ == h.name@ && opt_text(hs[j].value)
            == opt_text(h.value)
}

pub open spec fn same_headers_spec(l: RouteConfig, r: RouteConfig) -> bool {
    l.headers@.len() == r.headers@.len() && forall|i: int|
        0 <= i < l.headers@.len() ==> header_in(r.headers@, #[trigger] l.headers@[i])
}

/// Two routes declare the same default flag, listeners, hosts, paths,
/// prefixes, methods and header predicates.
pub open spec fn same_matchers_spec(l: RouteConfig, r: RouteConfig) -> bool {
    &&& l.default == r.default
    &&& same_string_set_spec(l.listeners@, r.listeners@)
    &&& same_string_set_spec(l.hosts@, r.hosts@)
    &&& same_string_set_spec(l.paths@, r.paths@)
    &&& same_string_set_spec(l.path_prefixes@, r.path_prefixes@)
    &&& same_string_set_spec(l.methods@, r.methods@)
    &&& same_headers_spec(l, r)
}

/// Some text occurs in both lists.
pub open spec fn lists_share(l: Seq<String>, r: Seq<String>) -> bool {
    exists|i: int| 0 <= i < l.len() && contains_string(r, (#[trigger] l[i])@)
}

pub open spec fn listeners_overlap_spec(l: RouteConfig, r: RouteConfig) -> bool {
    lists_share(l.listeners@, r.listeners@)
}

pub open spec fn methods_overlap_spec(l: RouteConfig, r: RouteConfig) -> bool {
    l.methods@.len() == 0 || r.methods@.len() == 0 || lists_share(l.methods@, r.methods@)
}

/// The value of the last predicate of `hs` named `name`, if any.
pub open spec fn last_value_for(hs: Seq<HeaderMatch>, name: Seq<char>) -> Option<
    Option<Seq<char>>,
>
    decreases hs.len(),
{
    if hs.len() == 0 {
        None
    } else if hs.last().name@ == name {
        Some(opt_text(hs.last().value))
    } else {
        last_value_for(hs.drop_last(), name)
    }
}

/// Two optional header values can both match one request.
pub open spec fn values_compatible(a: Option<Seq<char>>, b: Option<Seq<char>>) -> bool {
    match (a, b) {
        (Some(x), Some(y)) => x == y,
        _ => true,
    }
}

/// No predicate of `r` demands a value other than the one the last
/// same-named predicate of `l` demands.
pub open spec fn headers_overlap_spec(l: RouteConfig, r: RouteConfig) -> bool {
    forall|j: int|
        0 <= j < r.headers@.len() ==> match last_value_for(
            l.headers@,
            (#[trigger] r.headers@[j]).name@,
        ) {
            Some(lv) => values_compatible(lv, opt_text(r.headers@[j].value)),
            None => true,
        }
}

pub open spec fn wild_prefix() -> Seq<u8> {
    seq![0x2au8, 0x2eu8]
}

/// `pattern` is `*` followed by a suffix, and `exact` is one nonempty label
/// without a dot followed by that suffix.
pub open spec fn wildcard_matches_spec(pattern: Seq<u8>, exact: Seq<u8>) -> bool {
    &&& pattern.len() >= 1 && pattern[0] == 0x2a
    &&& ends_with(exact, pattern.subrange(1, pattern.len() as int))
    &&& exact.len() > pattern.len() - 1
    &&& !has_byte(exact.subrange(0, exact.len() - (pattern.len() - 1)), 0x2e)
}

pub open spec fn hosts_overlap_spec(l: Seq<u8>, r: Seq<u8>) -> bool {
    let lw = starts_with(l, wild_prefix());
    let rw = starts_with(r, wild_prefix());
    if lw && rw {
        l.subrange(2, l.len() as int) == r.subrange(2, r.len() as int)
    } else if lw {
        wildcard_matches_spec(l, r)
    } else if rw {
        wildcard_matches_spec(r, l)
    } else {
        l == r
    }
}

pub open spec fn host_pair_overlaps(l: Seq<u8>, r: Seq<u8>) -> bool {
    &&& starts_with(l, wild_prefix()) == starts_with(r, wild_prefix())
    &&& l.len() == r.len()
    &&& hosts_overlap_spec(l, r)
}

/// Host sets of equal specificity can match one request: both empty, or a
/// pair of equally long, equally wild hosts that overlap.
pub open spec fn host_specificity_overlap(l: RouteConfig, r: RouteConfig) -> bool {
    if l.hosts@.len() == 0 || r.hosts@.len() == 0 {
        l.hosts@.len() == 0 && r.hosts@.len() == 0
    } else {
        exists|i: int, j: int|
            0 <= i < l.hosts@.len() && 0 <= j < r.hosts@.len() && host_pair_overlaps(
                utf8((#[trigger] l.hosts@[i])@),
                utf8((#[trigger] r.hosts@[j])@),
            )
    }
}

/// `value` starts with `prefix` and continues with `/`.
pub open spec fn segment_prefix_spec(prefix: Seq<u8>, value: Seq<u8>) -> bool {
    starts_with(value, prefix) && value.len() > prefix.len() && value[prefix.len() as int] == 0x2f
}

pub open spec fn paths_overlap_spec(l: Seq<u8>, r: Seq<u8>) -> bool {
    l == seq![0x2fu8] || r == seq![0x2fu8] || l == r || segment_prefix_spec(l, r)
        || segment_prefix_spec(r, l)
}

pub open spec fn path_specificity_overlap(l: RouteConfig, r: RouteConfig) -> bool {
    if lists_share(l.paths@, r.paths@) {
        true
    } else if l.path_prefixes@.len() == 0 || r.path_prefixes@.len() == 0 {
        l.paths@.len() == 0 && r.paths@.len() == 0 && l.path_prefixes@.len() == 0
            && r.path_prefixes@.len() == 0
    } else {
        exists|i: int, j: int|
            0 <= i < l.path_prefixes@.len() && 0 <= j < r.path_prefixes@.len() && ({
                let a = utf8((#[trigger] l.path_prefixes@[i])@);
                let b = utf8((#[trigger] r.path_prefixes@[j])@);
                a.len() == b.len() && paths_overlap_spec(a, b)
            })
    }
}

/// The number of predicates that demand a value.
pub open spec fn valued_count(hs: Seq<HeaderMatch>) -> nat
    decreases hs.len(),
{
    if hs.len() == 0 {
        0
    } else {
        valued_count(hs.drop_last()) + if hs.last().value is Some {
            1nat
        } else {
            0nat
        }
    }
}

/// Method presence, method count, header count and valued-header count.
pub open spec fn specificity_spec(route: RouteConfig) -> (bool, int, int, int) {
    (
        route.methods@.len() != 0,
        route.methods@.len() as int,
        route.headers@.len() as int,
        valued_count(route.headers@) as int,
    )
}

/// Whether two routes conflict: identical matchers, two defaults on one
/// listener, or an overlap at equal priority and equal specificity.
pub open spec fn routes_conflict(l: RouteConfig, r: RouteConfig) -> bool {
    ||| same_matchers_spec(l, r)
    ||| listeners_overlap_spec(l, r) && l.default && r.default
    ||| {
        &&& listeners_overlap_spec(l, r)
        &&& !l.default && !r.default
        &&& l.priority == r.priority
        &&& methods_overlap_spec(l, r)
        &&& headers_overlap_spec(l, r)
        &&& host_specificity_overlap(l, r)
        &&& path_specificity_overlap(l, r)
        &&& specificity_spec(l) == specificity_spec(r)
    }
}

/// No earlier route conflicts with a later one.
pub open spec fn conflict_free(routes: Seq<RouteConfig>) -> bool {
    forall|i: int, j: int|
        0 <= i < j < routes.len() ==> !routes_conflict(#[trigger] routes[i], #[trigger] routes[j])
}

/// Method presence, method count, header count and valued-header count.
pub fn constraint_specificity(route: &RouteConfig) -> (r: (bool, usize, usize, usize))
    ensures
        (r.0, r.1 as int, r.2 as int, r.3 as int) == specificity_spec(*route),
{
    let hs = &route.headers;
    let mut count: usize = 0;
    let mut i: usize = 0;
    while i < hs.len()
        invariant
            i <= hs@.len(),
            count == valued_count(hs@.subrange(0, i as int)),
            count <= i,
        decreases hs@.len() - i,
    {
        assert(hs@.subrange(0, i + 1).drop_last() =~= hs@.subrange(0, i as int));
        if hs[i].value.is_some() {
            count += 1;
        }
        i += 1;
    }
    assert(hs@.subrange(0, hs@.len() as int) =~= hs@);
    (route.methods.len() != 0, route.methods.len(), hs.len(), count)
}

/// Same length, and every text of `left` occurs in `right`.
pub fn same_string_set(left: &Vec<String>, right: &Vec<String>) -> (r: bool)
    ensures
        r == same_string_set_spec(left@, right@),
{
    if left.len() != right.len() {
        return false;
    }
    let mut i: usize = 0;
    while i < left.len()
        invariant
            i <= left@.len(),
            forall|k: int| 0 <= k < i ==> contains_string(right@, (#[trigger] left@[k])@),
        decreases left@.len() - i,
    {
        if !vec_contains_str(right, left[i].as_str()) {
            return false;
        }
        i += 1;
    }
    true
}

fn opt_str_eq(a: &Option<String>, b: &Option<String>) -> (r: bool)
    ensures
        r == (opt_text(*a) == opt_text(*b)),
{
    match (a, b) {
        (Some(x), Some(y)) => str_eq(x.as_str(), y.as_str()),
        (None, None) => true,
        _ => false,
    }
}

fn headers_contain(hs: &Vec<HeaderMatch>, h: &HeaderMatch) -> (r: bool)
    ensures
        r == header_in(hs@, *h),
{
    let mut j: usize = 0;
    while j < hs.len()
        invariant
            j <= hs@.len(),
            forall|k: int|
                0 <= k < j ==> !((#[trigger] hs@[k]).name@ == h.name@ && opt_text(hs@[k].value)
                    == opt_text(h.value)),
        decreases hs@.len() - j,
    {
        if str_eq(hs[j].name.as_str(), h.name.as_str()) && opt_str_eq(&hs[j].value, &h.value) {
            return true;
        }
        j += 1;
    }
    false
}

/// Same number of header predicates, and each of `left` occurs in `right`.
pub fn same_headers(left: &RouteConfig, right: &RouteConfig) -> (r: bool)
    ensures
        r == same_headers_spec(*left, *right),
{
    if left.headers.len() != right.headers.len() {
        return false;
    }
    let mut i: usize = 0;
    while i < left.headers.len()
        invariant
            i <= left.headers@.len(),
            forall|k: int| 0 <= k < i ==> header_in(right.headers@, #[trigger] left.headers@[k]),
        decreases left.headers@.len() - i,
    {
        if !headers_contain(&right.headers, &left.headers[i]) {
            return false;
        }
        i += 1;
    }
    true
}

/// Whether two routes declare identical matchers.
pub fn same_matchers(left: &RouteConfig, right: &RouteConfig) -> (r: bool)
    ensures
        r == same_matchers_spec(*left, *right),
{
    left.default == right.default && same_string_set(&left.listeners, &right.listeners)
        && same_string_set(&left.hosts, &right.hosts) && same_string_set(&left.paths, &right.paths)
        && same_string_set(&left.path_prefixes, &right.path_prefixes) && same_string_set(
        &left.methods,
        &right.methods,
    ) && same_headers(left, right)
}

fn share_any(l: &Vec<String>, r: &Vec<String>) -> (res: bool)
    ensures
        res == lists_share(l@, r@),
{
    let mut i: usize = 0;
    while i < l.len()
        invariant
            i <= l@.len(),
            forall|k: int| 0 <= k < i ==> !contains_string(r@, (#[trigger] l@[k])@),
        decreases l@.len() - i,
    {
        if vec_contains_str(r, l[i].as_str()) {
            return true;
        }
        i += 1;
    }
    false
}

/// Whether the routes share a listener.
pub fn listeners_overlap(left: &RouteConfig, right: &RouteConfig) -> (r: bool)
    ensures
        r == listeners_overlap_spec(*left, *right),
{
    share_any(&left.listeners, &right.listeners)
}

/// Whether one request method can match both routes.
pub fn methods_overlap(left: &RouteConfig, right: &RouteConfig) -> (r: bool)
    ensures
        r == methods_overlap_spec(*left, *right),
{
    left.methods.len() == 0 || right.methods.len() == 0 || share_any(&left.methods, &right.methods)
}

fn last_value<'a>(hs: &'a Vec<HeaderMatch>, name: &str) -> (r: Option<Option<&'a str>>)
    ensures
        match r {
            None => last_value_for(hs@, name@) is None,
            Some(None) => last_value_for(hs@, name@) == Some(None::<Seq<char>>),
            Some(Some(v)) => last_value_for(hs@, name@) == Some(Some(v@)),
        },
{
    let mut i: usize = hs.len();
    assert(hs@.subrange(0, i as int) =~= hs@);
    while i > 0
        invariant
            i <= hs@.len(),
            last_value_for(hs@, name@) == last_value_for(hs@.subrange(0, i as int), name@),
        decreases i,
    {
        let ghost prefix = hs@.subrange(0, i as int);
        assert(prefix.drop_last() =~= hs@.subrange(0, i - 1));
        if str_eq(hs[i - 1].name.as_str(), name) {
            return match &hs[i - 1].value {
                Some(v) => Some(Some(v.as_str())),
                None => Some(None),
            };
        }
        i -= 1;
    }
    None
}

/// Whether every header predicate of `right` can hold together with the
/// same-named predicate of `left`.
pub fn headers_overlap(left: &RouteConfig, right: &RouteConfig) -> (r: bool)
    ensures
        r == headers_overlap_spec(*left, *right),
{
    let mut j: usize = 0;
    while j < right.headers.len()
        invariant
            j <= right.headers@.len(),
            forall|k: int|
                0 <= k < j ==> match last_value_for(
                    left.headers@,
                    (#[trigger] right.headers@[k]).name@,
                ) {
                    Some(lv) => values_compatible(lv, opt_text(right.headers@[k].value)),
                    None => true,
                },
        decreases right.headers@.len() - j,
    {
        let p = &right.headers[j];
        let ok = match last_value(&left.headers, p.name.as_str()) {
            None => true,
            Some(None) => true,
            Some(Some(lv)) => match &p.value {
                Some(rv) => str_eq(lv, rv.as_str()),
                None => true,
            },
        };
        if !ok {
            return false;
        }
        j += 1;
    }
    true
}

/// Whether `exact` is one dot-free label followed by the suffix of `pattern`
/// after its leading `*`.
pub fn wildcard_matches(pattern: &str, exact: &str) -> (r: bool)
    ensures
        r == wildcard_matches_spec(utf8(pattern@), utf8(exact@)),
{
    let p = pattern.as_bytes();
    let e = exact.as_bytes();
    if p.len() == 0 || p[0] != 0x2a {
        return false;
    }
    let suffix = &p[1..p.len()];
    if !slice_ends_with(e, suffix) {
        return false;
    }
    let label_len = e.len() - suffix.len();
    if label_len == 0 {
        return false;
    }
    let label = &e[0..label_len];
    !slice_has_byte(label, 0x2e)
}

/// Whether two hosts can name the same request host.
pub fn hosts_overlap(left: &str, right: &str) -> (r: bool)
    ensures
        r == hosts_overlap_spec(utf8(left@), utf8(right@)),
{
    let l = left.as_bytes();
    let rb = right.as_bytes();
    let wild: [u8; 2] = [0x2a, 0x2e];
    assert(wild@ =~= wild_prefix());
    let lw = slice_starts_with(l, wild.as_slice());
    let rw = slice_starts_with(rb, wild.as_slice());
    if lw && rw {
        slice_eq(&l[2..l.len()], &rb[2..rb.len()])
    } else if lw {
        wildcard_matches(left, right)
    } else if rw {
        wildcard_matches(right, left)
    } else {
        slice_eq(l, rb)
    }
}

fn host_pair_overlap(left: &str, right: &str) -> (r: bool)
    ensures
        r == host_pair_overlaps(utf8(left@), utf8(right@)),
{
    let wild: [u8; 2] = [0x2a, 0x2e];
    assert(wild@ =~= wild_prefix());
    slice_starts_with(left.as_bytes(), wild.as_slice()) == slice_starts_with(
        right.as_bytes(),
        wild.as_slice(),
    ) && left.as_bytes().len() == right.as_bytes().len() && hosts_overlap(left, right)
}

/// Whether the host sets have equal specificity and can overlap.
pub fn equal_host_specificity_can_overlap(left: &RouteConfig, right: &RouteConfig) -> (r: bool)
    ensures
        r == host_specificity_overlap(*left, *right),
{
    if left.hosts.len() == 0 || right.hosts.len() == 0 {
        return left.hosts.len() == 0 && right.hosts.len() == 0;
    }
    let mut i: usize = 0;
    while i < left.hosts.len()
        invariant
            i <= left.hosts@.len(),
            forall|a: int, b: int|
                0 <= a < i && 0 <= b < right.hosts@.len() ==> !host_pair_overlaps(
                    utf8((#[trigger] left.hosts@[a])@),
                    utf8((#[trigger] right.hosts@[b])@),
                ),
        decreases left.hosts@.len() - i,
    {
        let mut j: usize = 0;
        while j < right.hosts.len()
            invariant
                i < left.hosts@.len(),
                j <= right.hosts@.len(),
                forall|b: int|
                    0 <= b < j ==> !host_pair_overlaps(
                        utf8(left.hosts@[i as int]@),
                        utf8((#[trigger] right.hosts@[b])@),
                    ),
            decreases right.hosts@.len() - j,
        {
            if host_pair_overlap(left.hosts[i].as_str(), right.hosts[j].as_str()) {
                return true;
            }
            j += 1;
        }
        i += 1;
    }
    false
}

/// Whether `value` continues `prefix` at a segment boundary.
pub fn segment_prefix(prefix: &str, value: &str) -> (r: bool)
    ensures
        r == segment_prefix_spec(utf8(prefix@), utf8(value@)),
{
    let p = prefix.as_bytes();
    let v = value.as_bytes();
    slice_starts_with(v, p) && v.len() > p.len() && v[p.len()] == 0x2f
}

/// Whether two path prefixes can match one request path.
pub fn paths_overlap(left: &str, right: &str) -> (r: bool)
    ensures
        r == paths_overlap_spec(utf8(left@), utf8(right@)),
{
    let root: [u8; 1] = [0x2f];
    assert(root@ =~= seq![0x2fu8]);
    slice_eq(left.as_bytes(), root.as_slice()) || slice_eq(right.as_bytes(), root.as_slice())
        || slice_eq(left.as_bytes(), right.as_bytes()) || segment_prefix(left, right)
        || segment_prefix(right, left)
}

/// Whether the path matchers have equal specificity and can overlap.
pub fn equal_path_specificity_can_overlap(left: &RouteConfig, right: &RouteConfig) -> (r: bool)
    ensures
        r == path_specificity_overlap(*left, *right),
{
    if share_any(&left.paths, &right.paths) {
        return true;
    }
    if left.path_prefixes.len() == 0 || right.path_prefixes.len() == 0 {
        return left.paths.len() == 0 && right.paths.len() == 0 && left.path_prefixes.len() == 0
            && right.path_prefixes.len() == 0;
    }
    let mut i: usize = 0;
    while i < left.path_prefixes.len()
        invariant
            i <= left.path_prefixes@.len(),
            forall|a: int, b: int|
                0 <= a < i && 0 <= b < right.path_prefixes@.len() ==> !({
                    let x = utf8((#[trigger] left.path_prefixes@[a])@);
                    let y = utf8((#[trigger] right.path_prefixes@[b])@);
                    x.len() == y.len() && paths_overlap_spec(x, y)
                }),
        decreases left.path_prefixes@.len() - i,
    {
        let mut j: usize = 0;
        while j < right.path_prefixes.len()
            invariant
                i < left.path_prefixes@.len(),
                j <= right.path_prefixes@.len(),
                forall|b: int|
                    0 <= b < j ==> !({
                        let x = utf8(left.path_prefixes@[i as int]@);
                        let y = utf8((#[trigger] right.path_prefixes@[b])@);
                        x.len() == y.len() && paths_overlap_spec(x, y)
                    }),
            decreases right.path_prefixes@.len() - j,
        {
            let a = left.path_prefixes[i].as_str();
            let b = right.path_prefixes[j].as_str();
            if a.as_bytes().len() == b.as_bytes().len() && paths_overlap(a, b) {
                return true;
            }
            j += 1;
        }
        i += 1;
    }
    false
}

fn conflict_error(
    left_index: usize,
    left: &RouteConfig,
    right_index: usize,
    right: &RouteConfig,
    reason: &str,
) -> (r: ConfigError)
    ensures
        r matches ConfigError::Invalid(m) && m@ == "routes["@ + decimal_text(left_index as nat) + "] ("@
            + left.id@ + ") and routes["@ + decimal_text(right_index as nat) + "] ("@ + right.id@
            + ") conflict: "@ + reason@,
{
    let li = decimal(left_index);
    let ri = decimal(right_index);
    let a = join4("routes[", li.as_str(), "] (", left.id.as_str());
    let b = join4(") and routes[", ri.as_str(), "] (", right.id.as_str());
    let c = join2(a.as_str(), b.as_str());
    ConfigError::Invalid(join3(c.as_str(), ") conflict: ", reason))
}

/// Why two conflicting routes conflict.
pub open spec fn conflict_reason(l: RouteConfig, r: RouteConfig) -> Seq<char> {
    if same_matchers_spec(l, r) {
        "duplicate matchers"@
    } else if l.default && r.default {
        "multiple default routes share a listener"@
    } else {
        "ambiguous equal-priority overlap; assign distinct priorities"@
    }
}

/// The message naming conflicting routes `i` and `j`.
pub open spec fn conflict_message(routes: Seq<RouteConfig>, i: int, j: int) -> Seq<char> {
    "routes["@ + decimal_text(i as nat) + "] ("@ + routes[i].id@ + ") and routes["@ + decimal_text(
        j as nat,
    ) + "] ("@ + routes[j].id@ + ") conflict: "@ + conflict_reason(routes[i], routes[j])
}

/// The first route from position `j` on that conflicts with route `i`, as
/// its message.
pub open spec fn row_conflict(routes: Seq<RouteConfig>, i: int, j: int) -> Option<Seq<char>>
    decreases routes.len() - j,
{
    if 0 <= j < routes.len() {
        if routes_conflict(routes[i], routes[j]) {
            Some(conflict_message(routes, i, j))
        } else {
            row_conflict(routes, i, j + 1)
        }
    } else {
        None
    }
}

/// The first conflicting pair whose first route is at position `i` or
/// later, in declaration order, as its message.
pub open spec fn conflicts_error(routes: Seq<RouteConfig>, i: int) -> Option<Seq<char>>
    decreases routes.len() - i,
{
    if 0 <= i < routes.len() {
        match row_conflict(routes, i, i + 1) {
            Some(m) => Some(m),
            None => conflicts_error(routes, i + 1),
        }
    } else {
        None
    }
}

fn pair_conflict(left: &RouteConfig, right: &RouteConfig) -> (r: Option<&'static str>)
    ensures
        r is Some <==> routes_conflict(*left, *right),
        r matches Some(t) ==> t@ == conflict_reason(*left, *right),
{
    if same_matchers(left, right) {
        return Some("duplicate matchers");
    }
    if !listeners_overlap(left, right) {
        return None;
    }
    if left.default || right.default {
        if left.default && right.default {
            return Some("multiple default routes share a listener");
        }
        return None;
    }
    if left.priority != right.priority || !methods_overlap(left, right) || !headers_overlap(
        left,
        right,
    ) || !equal_host_specificity_can_overlap(left, right) || !equal_path_specificity_can_overlap(
        left,
        right,
    ) {
        return None;
    }
    let ls = constraint_specificity(left);
    let rs = constraint_specificity(right);
    if ls.0 != rs.0 || ls.1 != rs.1 || ls.2 != rs.2 || ls.3 != rs.3 {
        return None;
    }
    Some("ambiguous equal-priority overlap; assign distinct priorities")
}

/// Rejects duplicate matchers, shared default routes and ambiguous
/// equal-priority overlaps between any two routes.
pub fn validate_route_conflicts(routes: &Vec<RouteConfig>) -> (r: Result<(), ConfigError>)
    ensures
        r is Ok <==> conflict_free(routes@),
        match conflicts_error(routes@, 0) {
            Some(m) => r matches Err(ConfigError::Invalid(e)) && e@ == m,
            None => r is Ok,
        },
{
    let mut i: usize = 0;
    while i < routes.len()
        invariant
            i <= routes@.len(),
            conflicts_error(routes@, 0) == conflicts_error(routes@, i as int),
            forall|a: int, b: int|
                0 <= a < i && a < b < routes@.len() ==> !routes_conflict(
                    #[trigger] routes@[a],
                    #[trigger] routes@[b],
                ),
        decreases routes@.len() - i,
    {
        let mut j: usize = i + 1;
        while j < routes.len()
            invariant
                i < routes@.len(),
                i + 1 <= j <= routes@.len(),
                forall|b: int|
                    i < b < j ==> !routes_conflict(routes@[i as int], #[trigger] routes@[b]),
                conflicts_error(routes@, 0) == conflicts_error(routes@, i as int),
                row_conflict(routes@, i as int, i + 1) == row_conflict(routes@, i as int, j as int),
            decreases routes@.len() - j,
        {
            match pair_conflict(&routes[i], &routes[j]) {
                Some(reason) => {
                    return Err(conflict_error(i, &routes[i], j, &routes[j], reason));
                },
                None => {},
            }
            j += 1;
        }
        i += 1;
    }
    Ok(())
}


proof fn lemma_lists_share_symmetric(l: Seq<String>, r: Seq<String>)
    ensures
        lists_share(l, r) == lists_share(r, l),
{
    if lists_share(l, r) {
        let i = choose|i: int| 0 <= i < l.len() && contains_string(r, (#[trigger] l[i])@);
        let j = choose|j: int| 0 <= j < r.len() && (#[trigger] r[j])@ == l[i]@;
        assert(contains_string(l, r[j]@));
    }
    if lists_share(r, l) {
        let i = choose|i: int| 0 <= i < r.len() && contains_string(l, (#[trigger] r[i])@);
        let j = choose|j: int| 0 <= j < l.len() && (#[trigger] l[j])@ == r[i]@;
        assert(contains_string(r, l[j]@));
    }
}

/// Sharing a listener and admitting a common method are symmetric relations.
pub proof fn lemma_overlap_symmetric(l: RouteConfig, r: RouteConfig)
    ensures
        listeners_overlap_spec(l, r) == listeners_overlap_spec(r, l),
        methods_overlap_spec(l, r) == methods_overlap_spec(r, l),
        host_specificity_overlap(l, r) == host_specificity_overlap(r, l),
{
    lemma_lists_share_symmetric(l.listeners@, r.listeners@);
    lemma_lists_share_symmetric(l.methods@, r.methods@);
    if l.hosts@.len() != 0 && r.hosts@.len() != 0 {
        if host_specificity_overlap(l, r) {
            let (i, j) = choose|i: int, j: int|
                0 <= i < l.hosts@.len() && 0 <= j < r.hosts@.len() && host_pair_overlaps(
                    utf8((#[trigger] l.hosts@[i])@),
                    utf8((#[trigger] r.hosts@[j])@),
                );
            lemma_hosts_overlap_symmetric(utf8(l.hosts@[i]@), utf8(r.hosts@[j]@));
            assert(host_pair_overlaps(utf8(r.hosts@[j]@), utf8(l.hosts@[i]@)));
        }
        if host_specificity_overlap(r, l) {
            let (i, j) = choose|i: int, j: int|
                0 <= i < r.hosts@.len() && 0 <= j < l.hosts@.len() && host_pair_overlaps(
                    utf8((#[trigger] r.hosts@[i])@),
                    utf8((#[trigger] l.hosts@[j])@),
                );
            lemma_hosts_overlap_symmetric(utf8(r.hosts@[i]@), utf8(l.hosts@[j]@));
            assert(host_pair_overlaps(utf8(l.hosts@[j]@), utf8(r.hosts@[i]@)));
        }
    }
}

/// Host overlap and path-prefix overlap do not depend on argument order.
pub proof fn lemma_hosts_overlap_symmetric(l: Seq<u8>, r: Seq<u8>)
    ensures
        hosts_overlap_spec(l, r) == hosts_overlap_spec(r, l),
        paths_overlap_spec(l, r) == paths_overlap_spec(r, l),
{
}

/// Every route has the same matchers as itself, so a route listed twice is
/// always reported as a conflict, whatever its priority.
pub proof fn lemma_same_matchers_reflexive(route: RouteConfig)
    ensures
        same_matchers_spec(route, route),
        !conflict_free(seq![route, route]),
{
    assert forall|i: int| 0 <= i < route.listeners@.len() implies contains_string(
        route.listeners@,
        (#[trigger] route.listeners@[i])@,
    ) by {}
    assert forall|i: int| 0 <= i < route.hosts@.len() implies contains_string(
        route.hosts@,
        (#[trigger] route.hosts@[i])@,
    ) by {}
    assert forall|i: int| 0 <= i < route.paths@.len() implies contains_string(
        route.paths@,
        (#[trigger] route.paths@[i])@,
    ) by {}
    assert forall|i: int| 0 <= i < route.path_prefixes@.len() implies contains_string(
        route.path_prefixes@,
        (#[trigger] route.path_prefixes@[i])@,
    ) by {}
    assert forall|i: int| 0 <= i < route.methods@.len() implies contains_string(
        route.methods@,
        (#[trigger] route.methods@[i])@,
    ) by {}
    assert forall|i: int| 0 <= i < route.headers@.len() implies header_in(
        route.headers@,
        #[trigger] route.headers@[i],
    ) by {}
    let s = seq![route, route];
    assert(routes_conflict(s[0], s[1]));
}


/// Two duplicate-free sequences of equal length, the first contained in the
/// second, hold the same items.
proof fn lemma_same_items<A>(a: Seq<A>, b: Seq<A>)
    requires
        a.no_duplicates(),
        b.no_duplicates(),
        a.len() == b.len(),
        forall|i: int| 0 <= i < a.len() ==> b.contains(#[trigger] a[i]),
    ensures
        forall|i: int| 0 <= i < b.len() ==> a.contains(#[trigger] b[i]),
{
    broadcast use {vstd::set::group_set_axioms, vstd::seq_lib::seq_to_set_is_finite};

    a.unique_seq_to_set();
    b.unique_seq_to_set();
    assert(a.to_set().subset_of(b.to_set())) by {
        assert forall|x: A| a.to_set().contains(x) implies b.to_set().contains(x) by {
            let i = choose|i: int| 0 <= i < a.len() && a[i] == x;
            assert(b.contains(a[i]));
        }
    }
    vstd::set_lib::lemma_subset_equality(a.to_set(), b.to_set());
    assert forall|i: int| 0 <= i < b.len() implies a.contains(#[trigger] b[i]) by {
        assert(b.to_set().contains(b[i]));
    }
}

/// The texts of a list of strings.
pub open spec fn texts_of(s: Seq<String>) -> Seq<Seq<char>> {
    s.map_values(|x: String| x@)
}

/// Equal string sets, counted without repeats, is a symmetric relation.
proof fn lemma_same_set_symmetric(l: Seq<String>, r: Seq<String>)
    requires
        distinct_strings(l),
        distinct_strings(r),
        same_string_set_spec(l, r),
    ensures
        same_string_set_spec(r, l),
{
    let a = texts_of(l);
    let b = texts_of(r);
    assert forall|i: int, j: int| 0 <= i < a.len() && 0 <= j < a.len() && i != j implies a[i]
        != a[j] by {
        if i < j {
            assert(l[i]@ != l[j]@);
        } else {
            assert(l[j]@ != l[i]@);
        }
    }
    assert forall|i: int, j: int| 0 <= i < b.len() && 0 <= j < b.len() && i != j implies b[i]
        != b[j] by {
        if i < j {
            assert(r[i]@ != r[j]@);
        } else {
            assert(r[j]@ != r[i]@);
        }
    }
    assert forall|i: int| 0 <= i < a.len() implies b.contains(#[trigger] a[i]) by {
        assert(contains_string(r, l[i]@));
        let j = choose|j: int| 0 <= j < r.len() && (#[trigger] r[j])@ == l[i]@;
        assert(b[j] == a[i]);
    }
    lemma_same_items(a, b);
    assert forall|i: int| 0 <= i < r.len() implies contains_string(l, (#[trigger] r[i])@) by {
        assert(a.contains(b[i]));
        let j = choose|j: int| 0 <= j < a.len() && a[j] == b[i];
        assert(l[j]@ == r[i]@);
    }
}

/// The name and demanded value of each header predicate.
pub open spec fn header_views(hs: Seq<HeaderMatch>) -> Seq<(Seq<char>, Option<Seq<char>>)> {
    hs.map_values(|h: HeaderMatch| (h.name@, opt_text(h.value)))
}

/// No two header predicates share a name.
pub open spec fn header_names_distinct(hs: Seq<HeaderMatch>) -> bool {
    forall|i: int, j: int| 0 <= i < j < hs.len() ==> (#[trigger] hs[i]).name@ != (#[trigger] hs[j]).name@
}

proof fn lemma_same_headers_symmetric(l: RouteConfig, r: RouteConfig)
    requires
        header_names_distinct(l.headers@),
        header_names_distinct(r.headers@),
        same_headers_spec(l, r),
    ensures
        same_headers_spec(r, l),
{
    let a = header_views(l.headers@);
    let b = header_views(r.headers@);
    assert forall|i: int, j: int| 0 <= i < a.len() && 0 <= j < a.len() && i != j implies a[i]
        != a[j] by {
        if i < j {
            assert(l.headers@[i].name@ != l.headers@[j].name@);
        } else {
            assert(l.headers@[j].name@ != l.headers@[i].name@);
        }
    }
    assert forall|i: int, j: int| 0 <= i < b.len() && 0 <= j < b.len() && i != j implies b[i]
        != b[j] by {
        if i < j {
            assert(r.headers@[i].name@ != r.headers@[j].name@);
        } else {
            assert(r.headers@[j].name@ != r.headers@[i].name@);
        }
    }
    assert forall|i: int| 0 <= i < a.len() implies b.contains(#[trigger] a[i]) by {
        assert(header_in(r.headers@, l.headers@[i]));
        let j = choose|j: int|
            0 <= j < r.headers@.len() && (#[trigger] r.headers@[j]).name@ == l.headers@[i].name@
                && opt_text(r.headers@[j].value) == opt_text(l.headers@[i].value);
        assert(b[j] == a[i]);
    }
    lemma_same_items(a, b);
    assert forall|i: int| 0 <= i < r.headers@.len() implies header_in(
        l.headers@,
        #[trigger] r.headers@[i],
    ) by {
        assert(a.contains(b[i]));
        let j = choose|j: int| 0 <= j < a.len() && a[j] == b[i];
        assert(l.headers@[j].name@ == r.headers@[i].name@);
    }
}

/// Without repeated names, the last predicate named `name` is the only one.
proof fn lemma_last_value(hs: Seq<HeaderMatch>, name: Seq<char>)
    requires
        header_names_distinct(hs),
    ensures
        match last_value_for(hs, name) {
            Some(v) => exists|k: int|
                0 <= k < hs.len() && (#[trigger] hs[k]).name@ == name && opt_text(hs[k].value) == v,
            None => forall|k: int| 0 <= k < hs.len() ==> (#[trigger] hs[k]).name@ != name,
        },
        forall|k: int|
            0 <= k < hs.len() && (#[trigger] hs[k]).name@ == name ==> last_value_for(hs, name)
                == Some(opt_text(hs[k].value)),
    decreases hs.len(),
{
    if hs.len() > 0 {
        let rest = hs.drop_last();
        assert forall|i: int, j: int| 0 <= i < j < rest.len() implies (#[trigger] rest[i]).name@
            != (#[trigger] rest[j]).name@ by {
            assert(hs[i].name@ != hs[j].name@);
        }
        lemma_last_value(rest, name);
        if hs.last().name@ == name {
            assert(hs[hs.len() - 1].name@ == name);
            assert forall|k: int| 0 <= k < hs.len() && (#[trigger] hs[k]).name@ == name implies k
                == hs.len() - 1 by {
                if k < hs.len() - 1 {
                    assert(hs[k].name@ != hs[hs.len() - 1].name@);
                }
            }
        } else {
            assert forall|k: int| 0 <= k < hs.len() && (#[trigger] hs[k]).name@ == name implies k
                < hs.len() - 1 && rest[k] == hs[k] by {}
            match last_value_for(hs, name) {
                Some(v) => {
                    let k = choose|k: int|
                        0 <= k < rest.len() && (#[trigger] rest[k]).name@ == name && opt_text(
                            rest[k].value,
                        ) == v;
                    assert(hs[k] == rest[k]);
                },
                None => {
                    assert forall|k: int| 0 <= k < hs.len() implies (#[trigger] hs[k]).name@
                        != name by {
                        if k < hs.len() - 1 {
                            assert(rest[k] == hs[k]);
                        }
                    }
                },
            }
        }
    }
}

proof fn lemma_headers_overlap_symmetric(l: RouteConfig, r: RouteConfig)
    requires
        header_names_distinct(l.headers@),
        header_names_distinct(r.headers@),
    ensures
        headers_overlap_spec(l, r) == headers_overlap_spec(r, l),
{
    if headers_overlap_spec(l, r) {
        assert forall|j: int| 0 <= j < l.headers@.len() implies match last_value_for(
            r.headers@,
            (#[trigger] l.headers@[j]).name@,
        ) {
            Some(rv) => values_compatible(rv, opt_text(l.headers@[j].value)),
            None => true,
        } by {
            lemma_last_value(r.headers@, l.headers@[j].name@);
            lemma_last_value(l.headers@, l.headers@[j].name@);
            if let Some(rv) = last_value_for(r.headers@, l.headers@[j].name@) {
                let k = choose|k: int|
                    0 <= k < r.headers@.len() && (#[trigger] r.headers@[k]).name@
                        == l.headers@[j].name@ && opt_text(r.headers@[k].value) == rv;
                lemma_last_value(l.headers@, r.headers@[k].name@);
                assert(match last_value_for(l.headers@, r.headers@[k].name@) {
                    Some(lv) => values_compatible(lv, opt_text(r.headers@[k].value)),
                    None => true,
                });
            }
        }
    }
    if headers_overlap_spec(r, l) {
        assert forall|j: int| 0 <= j < r.headers@.len() implies match last_value_for(
            l.headers@,
            (#[trigger] r.headers@[j]).name@,
        ) {
            Some(lv) => values_compatible(lv, opt_text(r.headers@[j].value)),
            None => true,
        } by {
            lemma_last_value(l.headers@, r.headers@[j].name@);
            lemma_last_value(r.headers@, r.headers@[j].name@);
            if let Some(lv) = last_value_for(l.headers@, r.headers@[j].name@) {
                let k = choose|k: int|
                    0 <= k < l.headers@.len() && (#[trigger] l.headers@[k]).name@
                        == r.headers@[j].name@ && opt_text(l.headers@[k].value) == lv;
                lemma_last_value(r.headers@, l.headers@[k].name@);
                assert(match last_value_for(r.headers@, l.headers@[k].name@) {
                    Some(rv) => values_compatible(rv, opt_text(l.headers@[k].value)),
                    None => true,
                });
            }
        }
    }
}

/// A route that repeats no listener, host, path, prefix, method or header
/// name, as validation enforces.
pub open spec fn route_lists_distinct(r: RouteConfig) -> bool {
    &&& distinct_strings(r.listeners@)
    &&& distinct_strings(r.hosts@)
    &&& distinct_strings(r.paths@)
    &&& distinct_strings(r.path_prefixes@)
    &&& distinct_strings(r.methods@)
    &&& header_names_distinct(r.headers@)
}

proof fn lemma_path_specificity_symmetric(l: RouteConfig, r: RouteConfig)
    ensures
        path_specificity_overlap(l, r) == path_specificity_overlap(r, l),
{
    lemma_lists_share_symmetric(l.paths@, r.paths@);
    if !lists_share(l.paths@, r.paths@) && l.path_prefixes@.len() != 0 && r.path_prefixes@.len()
        != 0 {
        if path_specificity_overlap(l, r) {
            let (i, j) = choose|i: int, j: int|
                0 <= i < l.path_prefixes@.len() && 0 <= j < r.path_prefixes@.len() && ({
                    let a = utf8((#[trigger] l.path_prefixes@[i])@);
                    let b = utf8((#[trigger] r.path_prefixes@[j])@);
                    a.len() == b.len() && paths_overlap_spec(a, b)
                });
            lemma_hosts_overlap_symmetric(
                utf8(l.path_prefixes@[i]@),
                utf8(r.path_prefixes@[j]@),
            );
            assert({
                let a = utf8(r.path_prefixes@[j]@);
                let b = utf8(l.path_prefixes@[i]@);
                a.len() == b.len() && paths_overlap_spec(a, b)
            });
        }
        if path_specificity_overlap(r, l) {
            let (i, j) = choose|i: int, j: int|
                0 <= i < r.path_prefixes@.len() && 0 <= j < l.path_prefixes@.len() && ({
                    let a = utf8((#[trigger] r.path_prefixes@[i])@);
                    let b = utf8((#[trigger] l.path_prefixes@[j])@);
                    a.len() == b.len() && paths_overlap_spec(a, b)
                });
            lemma_hosts_overlap_symmetric(
                utf8(r.path_prefixes@[i]@),
                utf8(l.path_prefixes@[j]@),
            );
            assert({
                let a = utf8(l.path_prefixes@[j]@);
                let b = utf8(r.path_prefixes@[i]@);
                a.len() == b.len() && paths_overlap_spec(a, b)
            });
        }
    }
}

/// Whether two routes conflict does not depend on which is named first,
/// for routes that repeat no list entry.
pub proof fn lemma_conflict_symmetric(l: RouteConfig, r: RouteConfig)
    requires
        route_lists_distinct(l),
        route_lists_distinct(r),
    ensures
        routes_conflict(l, r) == routes_conflict(r, l),
{
    lemma_overlap_symmetric(l, r);
    lemma_headers_overlap_symmetric(l, r);
    lemma_path_specificity_symmetric(l, r);
    if same_matchers_spec(l, r) {
        lemma_same_set_symmetric(l.listeners@, r.listeners@);
        lemma_same_set_symmetric(l.hosts@, r.hosts@);
        lemma_same_set_symmetric(l.paths@, r.paths@);
        lemma_same_set_symmetric(l.path_prefixes@, r.path_prefixes@);
        lemma_same_set_symmetric(l.methods@, r.methods@);
        lemma_same_headers_symmetric(l, r);
    }
    if same_matchers_spec(r, l) {
        lemma_same_set_symmetric(r.listeners@, l.listeners@);
        lemma_same_set_symmetric(r.hosts@, l.hosts@);
        lemma_same_set_symmetric(r.paths@, l.paths@);
        lemma_same_set_symmetric(r.path_prefixes@, l.path_prefixes@);
        lemma_same_set_symmetric(r.methods@, l.methods@);
        lemma_same_headers_symmetric(r, l);
    }
}

/// `p` and `q` are inverse permutations of `0..n`.
pub open spec fn inverse_permutations(p: Seq<int>, q: Seq<int>, n: int) -> bool {
    &&& p.len() == n
    &&& q.len() == n
    &&& forall|k: int| 0 <= k < n ==> 0 <= #[trigger] p[k] < n && q[p[k]] == k
    &&& forall|i: int| 0 <= i < n ==> 0 <= #[trigger] q[i] < n && p[q[i]] == i
}

proof fn lemma_conflict_free_reordered(
    routes: Seq<RouteConfig>,
    other: Seq<RouteConfig>,
    p: Seq<int>,
    q: Seq<int>,
)
    requires
        other.len() == routes.len(),
        inverse_permutations(p, q, routes.len() as int),
        forall|k: int| 0 <= k < other.len() ==> #[trigger] other[k] == routes[p[k]],
        forall|i: int| 0 <= i < routes.len() ==> route_lists_distinct(#[trigger] routes[i]),
        conflict_free(routes),
    ensures
        conflict_free(other),
{
    assert forall|a: int, b: int| 0 <= a < b < other.len() implies !routes_conflict(
        #[trigger] other[a],
        #[trigger] other[b],
    ) by {
        let x = p[a];
        let y = p[b];
        assert(q[x] == a && q[y] == b);
        assert(routes[x] == other[a] && routes[y] == other[b]);
        if x < y {
            assert(!routes_conflict(routes[x], routes[y]));
        } else {
            assert(x != y);
            assert(!routes_conflict(routes[y], routes[x]));
            assert(route_lists_distinct(routes[x]) && route_lists_distinct(routes[y]));
            lemma_conflict_symmetric(routes[y], routes[x]);
        }
    }
}

/// The conflict check does not depend on the order in which routes are
/// declared: any reordering of routes that repeat no list entry is
/// conflict-free exactly when the original is.
pub proof fn lemma_conflicts_ignore_route_order(
    routes: Seq<RouteConfig>,
    other: Seq<RouteConfig>,
    p: Seq<int>,
    q: Seq<int>,
)
    requires
        other.len() == routes.len(),
        inverse_permutations(p, q, routes.len() as int),
        forall|k: int| 0 <= k < other.len() ==> #[trigger] other[k] == routes[p[k]],
        forall|i: int| 0 <= i < routes.len() ==> route_lists_distinct(#[trigger] routes[i]),
    ensures
        conflict_free(other) == conflict_free(routes),
{
    assert forall|i: int| 0 <= i < routes.len() implies #[trigger] routes[i] == other[q[i]] by {
        assert(other[q[i]] == routes[p[q[i]]]);
    }
    assert forall|k: int| 0 <= k < other.len() implies route_lists_distinct(#[trigger] other[k]) by {
        assert(other[k] == routes[p[k]]);
    }
    if conflict_free(routes) {
        lemma_conflict_free_reordered(routes, other, p, q);
    }
    if conflict_free(other) {
        lemma_conflict_free_reordered(other, routes, q, p);
    }
}


/// Two routes that both list an exact path overlap on paths, whatever
/// prefixes they list.
pub proof fn lemma_shared_exact_path_overlaps(l: RouteConfig, r: RouteConfig, i: int, j: int)
    requires
        0 <= i < l.paths@.len(),
        0 <= j < r.paths@.len(),
        l.paths@[i]@ == r.paths@[j]@,
    ensures
        path_specificity_overlap(l, r),
{
    assert(contains_string(r.paths@, l.paths@[i]@));
}

/// Two non-default routes on a common listener, with equal priority, the
/// same methods, hosts and header predicates, that both list one exact path
/// both match a request for that path: the route set holding them is
/// refused as ambiguous, whatever other paths either lists.
pub proof fn lemma_shared_exact_path_conflicts(
    l: RouteConfig,
    r: RouteConfig,
    a: int,
    b: int,
    i: int,
    j: int,
)
    requires
        0 <= a < l.listeners@.len(),
        0 <= b < r.listeners@.len(),
        l.listeners@[a]@ == r.listeners@[b]@,
        !l.default,
        !r.default,
        l.priority == r.priority,
        l.methods@ == r.methods@,
        l.hosts@ == r.hosts@,
        l.headers@ == r.headers@,
        headers_overlap_spec(l, r),
        0 <= i < l.paths@.len(),
        0 <= j < r.paths@.len(),
        l.paths@[i]@ == r.paths@[j]@,
    ensures
        routes_conflict(l, r),
        !conflict_free(seq![l, r]),
{
    assert(contains_string(r.listeners@, l.listeners@[a]@));
    lemma_shared_exact_path_overlaps(l, r, i, j);
    if l.methods@.len() != 0 {
        assert(contains_string(r.methods@, l.methods@[0]@));
    }
    if l.hosts@.len() != 0 {
        let h = utf8(l.hosts@[0]@);
        assert(utf8(r.hosts@[0]@) == h);
        if starts_with(h, wild_prefix()) {
            assert(h.subrange(2, h.len() as int) == h.subrange(2, h.len() as int));
        }
        assert(host_pair_overlaps(h, h));
    }
    assert(routes_conflict(seq![l, r][0], seq![l, r][1]));
}


/// Two routes whose path matchers give one path the same score overlap on
/// paths: they can match one request at equal path specificity.
pub proof fn lemma_equal_path_scores_overlap(l: RouteConfig, r: RouteConfig, path: Seq<u8>)
    requires
        crate::route::path_score_spec(l, path) is Some,
        crate::route::path_score_spec(l, path) == crate::route::path_score_spec(r, path),
    ensures
        path_specificity_overlap(l, r),
{
    crate::route::lemma_path_score_meaning(l, path);
    crate::route::lemma_path_score_meaning(r, path);
    let (kind, n) = crate::route::path_score_spec(l, path)->0;
    if kind == 2 {
        let i = choose|i: int| 0 <= i < l.paths@.len() && utf8((#[trigger] l.paths@[i])@) == path;
        let j = choose|j: int| 0 <= j < r.paths@.len() && utf8((#[trigger] r.paths@[j])@) == path;
        vstd::utf8::encode_utf8_decode_utf8(l.paths@[i]@);
        vstd::utf8::encode_utf8_decode_utf8(r.paths@[j]@);
        assert(l.paths@[i]@ == r.paths@[j]@);
        lemma_shared_exact_path_overlaps(l, r, i, j);
    } else if kind == 1 && !lists_share(l.paths@, r.paths@) {
        let i = choose|i: int|
            0 <= i < l.path_prefixes@.len() && utf8((#[trigger] l.path_prefixes@[i])@).len() == n
                && crate::route::covers_segments(utf8(l.path_prefixes@[i]@), path);
        let j = choose|j: int|
            0 <= j < r.path_prefixes@.len() && utf8((#[trigger] r.path_prefixes@[j])@).len() == n
                && crate::route::covers_segments(utf8(r.path_prefixes@[j]@), path);
        let a = utf8(l.path_prefixes@[i]@);
        let b = utf8(r.path_prefixes@[j]@);
        if a != seq![0x2fu8] && b != seq![0x2fu8] {
            assert(a =~= path.subrange(0, n));
            assert(b =~= path.subrange(0, n));
        }
        assert(paths_overlap_spec(a, b));
    }
}


/// Two routes whose hosts give one request host the same score overlap on
/// hosts: they can match one request at equal host specificity.
pub proof fn lemma_equal_host_scores_overlap(l: RouteConfig, r: RouteConfig, h: Seq<u8>)
    requires
        crate::route::host_score_spec(l.hosts@, h) is Some,
        crate::route::host_score_spec(l.hosts@, h) == crate::route::host_score_spec(r.hosts@, h),
    ensures
        host_specificity_overlap(l, r),
{
    crate::route::lemma_host_score_meaning(l.hosts@, h);
    crate::route::lemma_host_score_meaning(r.hosts@, h);
    if l.hosts@.len() != 0 && r.hosts@.len() != 0 {
        let (kind, n) = crate::route::host_score_spec(l.hosts@, h)->0;
        if kind == 2 {
            let i = choose|i: int| 0 <= i < l.hosts@.len() && utf8((#[trigger] l.hosts@[i])@) == h;
            let j = choose|j: int| 0 <= j < r.hosts@.len() && utf8((#[trigger] r.hosts@[j])@) == h;
            if starts_with(h, wild_prefix()) {
                assert(h.subrange(2, h.len() as int) == h.subrange(2, h.len() as int));
            }
            assert(host_pair_overlaps(utf8(l.hosts@[i]@), utf8(r.hosts@[j]@)));
        } else {
            let i = choose|i: int|
                0 <= i < l.hosts@.len() && utf8((#[trigger] l.hosts@[i])@).len() == n
                    && crate::route::wildcard_covers(utf8(l.hosts@[i]@), h);
            let j = choose|j: int|
                0 <= j < r.hosts@.len() && utf8((#[trigger] r.hosts@[j])@).len() == n
                    && crate::route::wildcard_covers(utf8(r.hosts@[j]@), h);
            let a = utf8(l.hosts@[i]@);
            let b = utf8(r.hosts@[j]@);
            let sa = a.subrange(2, a.len() as int);
            let sb = b.subrange(2, b.len() as int);
            assert(sa == h.subrange(h.len() - sa.len(), h.len() as int));
            assert(sb == h.subrange(h.len() - sb.len(), h.len() as int));
            assert(sa == sb);
            assert(a.subrange(0, 2) =~= wild_prefix());
            assert(b.subrange(0, 2) =~= wild_prefix());
            assert(host_pair_overlaps(a, b));
        }
    }
}

} // verus!
