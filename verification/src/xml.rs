//! Supplier payload mapping: the supplier's JSON shape, the XML response
//! shape, and the processed form the client consumes, with the conversions
//! between them. Monetary amounts in processed data are thousandths of a
//! currency unit, parsed exactly from their decimal text.

use vstd::prelude::*;
use vstd::string::StrSliceExecFns;
use vstd::string::StringExecFns;

verus! {

// --- supplier JSON shape ---------------------------------------------------

pub struct SupplierResponse {
    pub hotels: Vec<SupplierHotel>,
    pub search_id: String,
    pub currency: String,
    pub timestamp: String,
}

pub struct SupplierHotel {
    pub hotel_id: String,
    pub name: String,
    pub category: i32,
    pub rooms: Vec<SupplierRoom>,
    pub destination_code: String,
}

pub struct SupplierRoom {
    pub room_id: String,
    pub name: String,
    pub rates: Vec<SupplierRate>,
    pub capacity: RoomCapacity,
}

#[derive(Clone, Copy, PartialEq, Eq, Structural, Debug)]
pub struct RoomCapacity {
    pub adults: i32,
    pub children: i32,
}

/// A rate; the price is decimal text as the supplier sent it.
pub struct SupplierRate {
    pub rate_id: String,
    pub board_type: String,
    pub price: String,
    pub cancellation_policies: Vec<SupplierCancellationPolicy>,
    pub booking_code: String,
}

pub struct SupplierCancellationPolicy {
    pub from_date: String,
    pub amount: String,
}

// --- XML response shape ----------------------------------------------------

pub struct XmlProcessedResponse {
    pub hotels: XmlHotels,
}

pub struct XmlHotels {
    pub hotels: Vec<XmlHotel>,
}

pub struct XmlHotel {
    pub hotel_id: String,
    pub hotel_name: String,
    pub meal_plans: XmlMealPlans,
}

pub struct XmlMealPlans {
    pub meal_plans: Vec<XmlMealPlan>,
}

pub struct XmlMealPlan {
    pub code: String,
    pub options: XmlOptions,
}

pub struct XmlOptions {
    pub options: Vec<XmlOption>,
}

pub struct XmlOption {
    pub option_type: String,
    pub payment_type: String,
    pub status: String,
    pub price: XmlPrice,
    pub rooms: XmlRooms,
    pub parameters: XmlParameters,
}

pub struct XmlPrice {
    pub currency: String,
    pub amount: String,
    pub binding: String,
    pub commission: String,
    pub minimum_selling_price: String,
}

pub struct XmlRooms {
    pub rooms: Vec<XmlRoom>,
}

pub struct XmlRoom {
    pub id: String,
    pub room_candidate_ref_id: String,
    pub code: String,
    pub description: String,
    pub number_of_units: String,
    pub non_refundable: String,
    pub price: XmlPrice,
    pub cancel_penalties: XmlCancelPenalties,
}

pub struct XmlCancelPenalties {
    pub non_refundable: String,
    pub cancel_penalties: Vec<XmlCancelPenalty>,
}

pub struct XmlCancelPenalty {
    pub hours_before: String,
    pub penalty: XmlPenalty,
    pub deadline: String,
}

pub struct XmlPenalty {
    pub penalty_type: String,
    pub currency: String,
    pub value: String,
}

pub struct XmlParameters {
    pub parameters: Vec<XmlParameter>,
}

pub struct XmlParameter {
    pub key: String,
    pub value: String,
}

// --- processed shape --------------------------------------------------------

pub struct ProcessedResponse {
    pub search_id: String,
    pub total_options: usize,
    pub hotels: Vec<HotelOption>,
    pub currency: String,
    pub nationality: String,
    pub check_in: String,
    pub check_out: String,
}

pub struct HotelOption {
    pub hotel_id: String,
    pub hotel_name: String,
    pub room_type: String,
    pub room_description: String,
    pub board_type: String,
    pub price: Price,
    pub cancellation_policies: Vec<ProcessedCancellationPolicy>,
    pub payment_type: String,
    pub is_refundable: bool,
    pub search_token: String,
}

/// An amount in thousandths of a currency unit.
pub struct Price {
    pub amount_milli: u64,
    pub currency: String,
}

pub struct ProcessedCancellationPolicy {
    pub deadline: String,
    pub penalty_amount_milli: u64,
    pub currency: String,
    pub hours_before: i32,
    pub penalty_type: String,
}

/// Filters over processed options; the price ceiling is in thousandths.
pub struct FilterCriteria {
    pub max_price_milli: Option<u64>,
    pub board_types: Option<Vec<String>>,
    pub free_cancellation: bool,
    pub hotel_ids: Option<Vec<String>>,
    pub room_type_contains: Option<String>,
}

// --- decimal text -----------------------------------------------------------

pub open spec fn spec_is_digit(c: char) -> bool {
    48 <= c as u32 <= 57
}

pub open spec fn spec_digit_val(c: char) -> int {
    c as u32 - 48
}

pub open spec fn spec_all_digits(s: Seq<char>) -> bool {
    forall|i: int| 0 <= i < s.len() ==> spec_is_digit(#[trigger] s[i])
}

/// The number the digit string denotes.
pub open spec fn spec_digits_val(s: Seq<char>) -> int
    decreases s.len(),
{
    if s.len() == 0 {
        0
    } else {
        spec_digits_val(s.drop_last()) * 10 + spec_digit_val(s.last())
    }
}

/// The first position of `c` in `s`, or the length when absent.
pub open spec fn spec_find_char(s: Seq<char>, c: char) -> int
    decreases s.len(),
{
    if s.len() == 0 {
        0
    } else if s[0] == c {
        0
    } else {
        1 + spec_find_char(s.drop_first(), c)
    }
}

/// The amount in thousandths that decimal text denotes: an integer part and
/// an optional fraction separated by one dot, both digits, not both empty,
/// the integer part at most 15 digits (larger amounts are treated as
/// malformed); the fraction counts to three places, further digits ignored.
/// Malformed text denotes zero.
pub open spec fn spec_amount_milli(s: Seq<char>) -> int {
    let dot = spec_find_char(s, '.');
    if dot == s.len() {
        if 1 <= s.len() <= 15 && spec_all_digits(s) {
            spec_digits_val(s) * 1000
        } else {
            0
        }
    } else {
        let ip = s.subrange(0, dot);
        let fp = s.subrange(dot + 1, s.len() as int);
        if ip.len() <= 15 && ip.len() + fp.len() >= 1 && spec_all_digits(ip) && spec_all_digits(fp)
            && spec_find_char(fp, '.') == fp.len() {
            spec_digits_val(ip) * 1000 + spec_frac_milli(fp)
        } else {
            0
        }
    }
}

/// The fraction's value in thousandths: the first three places, zero-padded.
pub open spec fn spec_frac_milli(fp: Seq<char>) -> int {
    if fp.len() >= 3 {
        spec_digits_val(fp.subrange(0, 3))
    } else if fp.len() == 2 {
        spec_digits_val(fp) * 10
    } else if fp.len() == 1 {
        spec_digits_val(fp) * 100
    } else {
        0
    }
}

pub proof fn lemma_digits_val_bounds(s: Seq<char>)
    requires
        spec_all_digits(s),
    ensures
        0 <= spec_digits_val(s),
        s.len() <= 15 ==> spec_digits_val(s) < 1_000_000_000_000_000,
{
    lemma_digits_val_pow(s, s.len());
    if s.len() <= 15 {
        lemma_pow10_mono(s.len(), 15);
        reveal_with_fuel(spec_pow10, 16);
        assert(spec_pow10(15) == 1_000_000_000_000_000);
    }
}

proof fn lemma_pow10_mono(m: nat, n: nat)
    requires
        m <= n,
    ensures
        spec_pow10(m) <= spec_pow10(n),
    decreases n,
{
    if m < n {
        lemma_pow10_mono(m, (n - 1) as nat);
        lemma_pow10_pos((n - 1) as nat);
    }
}

/// A digit string of at most `n` digits denotes less than 10^n.
proof fn lemma_digits_val_pow(s: Seq<char>, n: nat)
    requires
        spec_all_digits(s),
        s.len() <= n,
    ensures
        0 <= spec_digits_val(s) < spec_pow10(n),
    decreases n,
{
    if s.len() == 0 {
        lemma_pow10_pos(n);
    } else {
        assert(spec_all_digits(s.drop_last())) by {
            assert(forall|i: int|
                0 <= i < s.len() - 1 ==> s.drop_last()[i] == #[trigger] s[i]);
        }
        lemma_digits_val_pow(s.drop_last(), (n - 1) as nat);
        assert(spec_pow10(n) == 10 * spec_pow10((n - 1) as nat));
    }
}

pub open spec fn spec_pow10(n: nat) -> int
    decreases n,
{
    if n == 0 {
        1
    } else {
        10 * spec_pow10((n - 1) as nat)
    }
}

proof fn lemma_pow10_pos(n: nat)
    ensures
        spec_pow10(n) >= 1,
    decreases n,
{
    if n > 0 {
        lemma_pow10_pos((n - 1) as nat);
    }
}

/// The value of a digit string of at most 15 digits.
fn digits_val(s: &str, from: usize, to: usize) -> (r: u64)
    requires
        from <= to <= s@.len(),
        to - from <= 15,
        spec_all_digits(s@.subrange(from as int, to as int)),
    ensures
        r == spec_digits_val(s@.subrange(from as int, to as int)),
{
    proof {
        lemma_digits_val_bounds(s@.subrange(from as int, to as int));
    }
    let mut acc: u64 = 0;
    let mut i: usize = from;
    while i < to
        invariant
            from <= i <= to <= s@.len(),
            to - from <= 15,
            spec_all_digits(s@.subrange(from as int, to as int)),
            acc == spec_digits_val(s@.subrange(from as int, i as int)),
            acc < 1_000_000_000_000_000,
        decreases to - i,
    {
        let ghost pre: Seq<char> = s@.subrange(from as int, i as int);
        let c = s.get_char(i);
        proof {
            assert(s@.subrange(from as int, i + 1).drop_last() =~= pre);
            assert(s@.subrange(from as int, i + 1).last() == s@[i as int]);
            assert(s@[i as int] == s@.subrange(from as int, to as int)[i - from]);
            assert(spec_all_digits(s@.subrange(from as int, i + 1))) by {
                assert(forall|j: int|
                    0 <= j < i + 1 - from ==> s@.subrange(from as int, i + 1)[j]
                        == #[trigger] s@.subrange(from as int, to as int)[j]);
            }
            lemma_digits_val_bounds(s@.subrange(from as int, i + 1));
        }
        let d: u32 = c as u32 - 48;
        acc = acc * 10 + d as u64;
        i = i + 1;
    }
    proof {
        assert(s@.subrange(from as int, to as int) =~= s@.subrange(from as int, to as int));
    }
    acc
}

fn is_digit(c: char) -> (r: bool)
    ensures
        r == spec_is_digit(c),
{
    let v = c as u32;
    48 <= v && v <= 57
}

/// Whether the characters of `s` in `[from, to)` are all digits.
fn all_digits_range(s: &str, from: usize, to: usize) -> (r: bool)
    requires
        from <= to <= s@.len(),
    ensures
        r == spec_all_digits(s@.subrange(from as int, to as int)),
{
    let mut i: usize = from;
    while i < to
        invariant
            from <= i <= to <= s@.len(),
            forall|j: int|
                from <= j < i ==> spec_is_digit(#[trigger] s@[j]),
        decreases to - i,
    {
        if !is_digit(s.get_char(i)) {
            assert(s@.subrange(from as int, to as int)[i - from] == s@[i as int]);
            return false;
        }
        i = i + 1;
    }
    assert forall|j: int| 0 <= j < to - from implies spec_is_digit(
        #[trigger] s@.subrange(from as int, to as int)[j],
    ) by {
        assert(s@.subrange(from as int, to as int)[j] == s@[from + j]);
    }
    true
}

/// The first position of `c` in `s`, or the length when absent.
fn find_char(s: &str, c: char) -> (r: usize)
    ensures
        r == spec_find_char(s@, c),
        r <= s@.len(),
        r < s@.len() ==> s@[r as int] == c,
        forall|j: int| 0 <= j < r ==> s@[j] != c,
{
    proof {
        lemma_find_char(s@, c);
    }
    let len = s.unicode_len();
    let mut i: usize = 0;
    while i < len
        invariant
            len == s@.len(),
            0 <= i <= len,
            forall|j: int| 0 <= j < i ==> s@[j] != c,
        decreases len - i,
    {
        if s.get_char(i) == c {
            proof {
                lemma_find_char_at(s@, c, i as int);
            }
            return i;
        }
        i = i + 1;
    }
    proof {
        lemma_find_char_absent(s@, c);
    }
    len
}

proof fn lemma_find_char(s: Seq<char>, c: char)
    ensures
        0 <= spec_find_char(s, c) <= s.len(),
    decreases s.len(),
{
    if s.len() > 0 && s[0] != c {
        lemma_find_char(s.drop_first(), c);
    }
}

proof fn lemma_find_char_at(s: Seq<char>, c: char, i: int)
    requires
        0 <= i < s.len(),
        s[i] == c,
        forall|j: int| 0 <= j < i ==> s[j] != c,
    ensures
        spec_find_char(s, c) == i,
    decreases s.len(),
{
    if i > 0 {
        assert(s.drop_first()[i - 1] == c);
        assert(forall|j: int| 0 <= j < i - 1 ==> #[trigger] s.drop_first()[j] == s[j + 1]);
        lemma_find_char_at(s.drop_first(), c, i - 1);
    }
}

proof fn lemma_find_char_absent(s: Seq<char>, c: char)
    requires
        forall|j: int| 0 <= j < s.len() ==> s[j] != c,
    ensures
        spec_find_char(s, c) == s.len(),
    decreases s.len(),
{
    if s.len() > 0 {
        assert(forall|j: int|
            0 <= j < s.len() - 1 ==> #[trigger] s.drop_first()[j] == s[j + 1]);
        lemma_find_char_absent(s.drop_first(), c);
    }
}

/// Parses decimal text into thousandths; malformed text (see
/// `spec_amount_milli`) parses to zero.
pub fn parse_amount_milli(s: &str) -> (r: u64)
    ensures
        r == spec_amount_milli(s@),
{
    let len = s.unicode_len();
    let dot = find_char(s, '.');
    if dot == len {
        if 1 <= len && len <= 15 && all_digits_range(s, 0, len) {
            proof {
                assert(s@.subrange(0, len as int) =~= s@);
                lemma_digits_val_bounds(s@);
            }
            digits_val(s, 0, len) * 1000
        } else {
            proof {
                assert(s@.subrange(0, len as int) =~= s@);
            }
            0
        }
    } else {
        let ghost ip: Seq<char> = s@.subrange(0, dot as int);
        let ghost fp: Seq<char> = s@.subrange(dot + 1, len as int);
        let ip_ok = dot <= 15 && all_digits_range(s, 0, dot);
        let fp_ok = all_digits_range(s, dot + 1, len);
        let fp_len: usize = len - (dot + 1);
        let not_both_empty = dot > 0 || fp_len > 0;
        let fp_no_dot = !contains_char_range(s, dot + 1, len, '.');
        if ip_ok && fp_ok && not_both_empty && fp_no_dot {
            proof {
                lemma_digits_val_bounds(ip);
                if fp.len() >= 3 {
                    lemma_digits_val_bounds(fp.subrange(0, 3));
                } else {
                    lemma_digits_val_bounds(fp);
                }
                lemma_find_char_absent(fp, '.');
            }
            let ipv: u64 = digits_val(s, 0, dot);
            let fpv: u64 = if fp_len >= 3 {
                proof {
                    assert(s@.subrange(dot + 1, dot + 1 + 3) =~= fp.subrange(0, 3));
                }
                digits_val(s, dot + 1, dot + 4)
            } else if fp_len == 2 {
                digits_val(s, dot + 1, len) * 10
            } else if fp_len == 1 {
                digits_val(s, dot + 1, len) * 100
            } else {
                0
            };
            ipv * 1000 + fpv
        } else {
            0
        }
    }
}

/// Whether `c` occurs in `s` within `[from, to)`.
fn contains_char_range(s: &str, from: usize, to: usize, c: char) -> (r: bool)
    requires
        from <= to <= s@.len(),
    ensures
        r == exists|j: int| 0 <= j < to - from && s@.subrange(from as int, to as int)[j] == c,
{
    let mut i: usize = from;
    while i < to
        invariant
            from <= i <= to <= s@.len(),
            forall|j: int| from <= j < i ==> s@[j] != c,
        decreases to - i,
    {
        if s.get_char(i) == c {
            assert(s@.subrange(from as int, to as int)[i - from] == c);
            return true;
        }
        i = i + 1;
    }
    assert forall|j: int| 0 <= j < to - from implies s@.subrange(from as int, to as int)[j]
        != c by {
        assert(s@.subrange(from as int, to as int)[j] == s@[from + j]);
    }
    false
}

/// The signed whole number that text denotes: an optional minus sign and one
/// to nine digits; anything else (the original tolerates malformed counts)
/// denotes zero.
pub open spec fn spec_hours_val(s: Seq<char>) -> int {
    if s.len() >= 1 && s[0] == '-' {
        let ds = s.drop_first();
        if 1 <= ds.len() <= 9 && spec_all_digits(ds) {
            -spec_digits_val(ds)
        } else {
            0
        }
    } else {
        if 1 <= s.len() <= 9 && spec_all_digits(s) {
            spec_digits_val(s)
        } else {
            0
        }
    }
}

// --- XML response -> processed options ---------------------------------------

/// One room of one option of one meal plan of one hotel: the unit the
/// processed response holds one `HotelOption` for.
pub open spec fn spec_rooms_of_option(
    h: XmlHotel,
    m: XmlMealPlan,
    o: XmlOption,
) -> Seq<(XmlHotel, XmlMealPlan, XmlOption, XmlRoom)> {
    Seq::new(o.rooms.rooms@.len(), |i: int| (h, m, o, o.rooms.rooms@[i]))
}

pub open spec fn spec_quads_of_options(
    h: XmlHotel,
    m: XmlMealPlan,
    os: Seq<XmlOption>,
) -> Seq<(XmlHotel, XmlMealPlan, XmlOption, XmlRoom)>
    decreases os.len(),
{
    if os.len() == 0 {
        Seq::empty()
    } else {
        spec_quads_of_options(h, m, os.drop_last()) + spec_rooms_of_option(h, m, os.last())
    }
}

pub open spec fn spec_quads_of_mealplans(
    h: XmlHotel,
    ms: Seq<XmlMealPlan>,
) -> Seq<(XmlHotel, XmlMealPlan, XmlOption, XmlRoom)>
    decreases ms.len(),
{
    if ms.len() == 0 {
        Seq::empty()
    } else {
        spec_quads_of_mealplans(h, ms.drop_last()) + spec_quads_of_options(
            h,
            ms.last(),
            ms.last().options.options@,
        )
    }
}

pub open spec fn spec_quads_of_hotels(hs: Seq<XmlHotel>) -> Seq<
    (XmlHotel, XmlMealPlan, XmlOption, XmlRoom),
>
    decreases hs.len(),
{
    if hs.len() == 0 {
        Seq::empty()
    } else {
        spec_quads_of_hotels(hs.drop_last()) + spec_quads_of_mealplans(
            hs.last(),
            hs.last().meal_plans.meal_plans@,
        )
    }
}

/// Every room of every option of every meal plan of every hotel, in document
/// order.
pub open spec fn spec_quads(x: XmlProcessedResponse) -> Seq<
    (XmlHotel, XmlMealPlan, XmlOption, XmlRoom),
> {
    spec_quads_of_hotels(x.hotels.hotels@)
}

/// Whether text spells "false" regardless of ASCII case (how the feed marks
/// a refundable room).
pub open spec fn spec_is_false_ci(s: Seq<char>) -> bool {
    &&& s.len() == 5
    &&& (s[0] == 'f' || s[0] == 'F')
    &&& (s[1] == 'a' || s[1] == 'A')
    &&& (s[2] == 'l' || s[2] == 'L')
    &&& (s[3] == 's' || s[3] == 'S')
    &&& (s[4] == 'e' || s[4] == 'E')
}

fn is_false_ci(s: &str) -> (r: bool)
    ensures
        r == spec_is_false_ci(s@),
{
    if s.unicode_len() != 5 {
        return false;
    }
    let c0 = s.get_char(0);
    let c1 = s.get_char(1);
    let c2 = s.get_char(2);
    let c3 = s.get_char(3);
    let c4 = s.get_char(4);
    (c0 == 'f' || c0 == 'F') && (c1 == 'a' || c1 == 'A') && (c2 == 'l' || c2 == 'L') && (c3 == 's'
        || c3 == 'S') && (c4 == 'e' || c4 == 'E')
}

/// The value of the first parameter keyed "search_token", empty when none.
pub open spec fn spec_token_view(params: Seq<XmlParameter>) -> Seq<char>
    decreases params.len(),
{
    if params.len() == 0 {
        Seq::empty()
    } else if params[0].key@ == "search_token"@ {
        params[0].value@
    } else {
        spec_token_view(params.drop_first())
    }
}

proof fn lemma_token_at(params: Seq<XmlParameter>, i: int)
    requires
        0 <= i < params.len(),
        params[i].key@ == "search_token"@,
        forall|j: int| 0 <= j < i ==> (#[trigger] params[j]).key@ != "search_token"@,
    ensures
        spec_token_view(params) == params[i].value@,
    decreases params.len(),
{
    if i > 0 {
        assert(forall|j: int|
            0 <= j < i - 1 ==> #[trigger] params.drop_first()[j] == params[j + 1]);
        assert(params.drop_first()[i - 1] == params[i]);
        lemma_token_at(params.drop_first(), i - 1);
    }
}

proof fn lemma_token_absent(params: Seq<XmlParameter>)
    requires
        forall|j: int| 0 <= j < params.len() ==> (#[trigger] params[j]).key@ != "search_token"@,
    ensures
        spec_token_view(params) == Seq::<char>::empty(),
    decreases params.len(),
{
    if params.len() > 0 {
        assert(forall|j: int|
            0 <= j < params.len() - 1 ==> #[trigger] params.drop_first()[j] == params[j + 1]);
        lemma_token_absent(params.drop_first());
    }
}

/// Finds the search token among an option's parameters.
fn search_token_of(params: &Vec<XmlParameter>) -> (r: String)
    ensures
        r@ == spec_token_view(params@),
{
    let mut i: usize = 0;
    while i < params.len()
        invariant
            0 <= i <= params@.len(),
            forall|j: int| 0 <= j < i ==> (#[trigger] params@[j]).key@ != "search_token"@,
        decreases params@.len() - i,
    {
        if crate::strutil::str_eq(params[i].key.as_str(), "search_token") {
            proof {
                lemma_token_at(params@, i as int);
            }
            return params[i].value.clone();
        }
        i = i + 1;
    }
    proof {
        lemma_token_absent(params@);
        reveal_strlit("");
    }
    String::new()
}

/// How one processed cancellation policy reflects one XML penalty.
pub open spec fn spec_policy_matches(
    p: ProcessedCancellationPolicy,
    cp: XmlCancelPenalty,
) -> bool {
    &&& p.deadline == cp.deadline
    &&& p.penalty_amount_milli == spec_amount_milli(cp.penalty.value@)
    &&& p.currency == cp.penalty.currency
    &&& p.hours_before == spec_hours_val(cp.hours_before@)
    &&& p.penalty_type == cp.penalty.penalty_type
}

/// How one processed option reflects one (hotel, meal plan, option, room).
pub open spec fn spec_option_matches(
    ho: HotelOption,
    q: (XmlHotel, XmlMealPlan, XmlOption, XmlRoom),
) -> bool {
    &&& ho.hotel_id == q.0.hotel_id
    &&& ho.hotel_name == q.0.hotel_name
    &&& ho.room_type == q.3.code
    &&& ho.room_description == q.3.description
    &&& ho.board_type == q.1.code
    &&& ho.price.amount_milli == spec_amount_milli(q.2.price.amount@)
    &&& ho.price.currency == q.2.price.currency
    &&& ho.cancellation_policies@.len() == q.3.cancel_penalties.cancel_penalties@.len()
    &&& forall|i: int|
        0 <= i < ho.cancellation_policies@.len() ==> spec_policy_matches(
            #[trigger] ho.cancellation_policies@[i],
            q.3.cancel_penalties.cancel_penalties@[i],
        )
    &&& ho.payment_type == q.2.payment_type
    &&& ho.is_refundable == spec_is_false_ci(q.3.non_refundable@)
    &&& ho.search_token@ == spec_token_view(q.2.parameters.parameters@)
}

/// Converts one XML penalty.
fn policy_from_xml(cp: &XmlCancelPenalty) -> (r: ProcessedCancellationPolicy)
    ensures
        spec_policy_matches(r, *cp),
{
    ProcessedCancellationPolicy {
        deadline: cp.deadline.clone(),
        penalty_amount_milli: parse_amount_milli(cp.penalty.value.as_str()),
        currency: cp.penalty.currency.clone(),
        hours_before: parse_hours(cp.hours_before.as_str()),
        penalty_type: cp.penalty.penalty_type.clone(),
    }
}

/// Converts one room of one option into a processed option.
fn option_from_room(h: &XmlHotel, m: &XmlMealPlan, o: &XmlOption, room: &XmlRoom) -> (r:
    HotelOption)
    ensures
        spec_option_matches(r, (*h, *m, *o, *room)),
{
    let mut policies: Vec<ProcessedCancellationPolicy> = Vec::new();
    let cps = &room.cancel_penalties.cancel_penalties;
    let mut i: usize = 0;
    while i < cps.len()
        invariant
            0 <= i <= cps@.len(),
            policies@.len() == i,
            forall|j: int|
                0 <= j < i ==> spec_policy_matches(#[trigger] policies@[j], cps@[j]),
        decreases cps@.len() - i,
    {
        let p = policy_from_xml(&cps[i]);
        policies.push(p);
        i = i + 1;
    }
    HotelOption {
        hotel_id: h.hotel_id.clone(),
        hotel_name: h.hotel_name.clone(),
        room_type: room.code.clone(),
        room_description: room.description.clone(),
        board_type: m.code.clone(),
        price: Price {
            amount_milli: parse_amount_milli(o.price.amount.as_str()),
            currency: o.price.currency.clone(),
        },
        cancellation_policies: policies,
        payment_type: o.payment_type.clone(),
        is_refundable: is_false_ci(room.non_refundable.as_str()),
        search_token: search_token_of(&o.parameters.parameters),
    }
}

impl ProcessedResponse {
    /// Flattens an XML availability response into one processed option per
    /// room, in document order, under the sample search's fixed header.
    pub fn from_xml(item: &XmlProcessedResponse) -> (r: ProcessedResponse)
        ensures
            r.hotels@.len() == spec_quads(*item).len(),
            forall|i: int|
                0 <= i < r.hotels@.len() ==> spec_option_matches(
                    #[trigger] r.hotels@[i],
                    spec_quads(*item)[i],
                ),
            r.total_options == r.hotels@.len(),
            r.search_id@ == "example_search"@,
            r.currency@ == "GBP"@,
            r.nationality@ == "US"@,
            r.check_in@ == "2025-06-11"@,
            r.check_out@ == "2025-06-12"@,
    {
        let mut out: Vec<HotelOption> = Vec::new();
        let hotels = &item.hotels.hotels;
        let mut hi: usize = 0;
        while hi < hotels.len()
            invariant
                0 <= hi <= hotels@.len(),
                out@.len() == spec_quads_of_hotels(hotels@.subrange(0, hi as int)).len(),
                forall|i: int|
                    0 <= i < out@.len() ==> spec_option_matches(
                        #[trigger] out@[i],
                        spec_quads_of_hotels(hotels@.subrange(0, hi as int))[i],
                    ),
            decreases hotels@.len() - hi,
        {
            let ghost pre_h: Seq<XmlHotel> = hotels@.subrange(0, hi as int);
            let h = &hotels[hi];
            let ms = &h.meal_plans.meal_plans;
            let mut mi: usize = 0;
            while mi < ms.len()
                invariant
                    0 <= mi <= ms@.len(),
                    pre_h == hotels@.subrange(0, hi as int),
                    hi < hotels@.len(),
                    *h == hotels@[hi as int],
                    ms@ == h.meal_plans.meal_plans@,
                    out@.len() == spec_quads_of_hotels(pre_h).len()
                        + spec_quads_of_mealplans(*h, ms@.subrange(0, mi as int)).len(),
                    forall|i: int|
                        0 <= i < out@.len() ==> spec_option_matches(
                            #[trigger] out@[i],
                            (spec_quads_of_hotels(pre_h) + spec_quads_of_mealplans(
                                *h,
                                ms@.subrange(0, mi as int),
                            ))[i],
                        ),
                decreases ms@.len() - mi,
            {
                let ghost pre_m: Seq<XmlMealPlan> = ms@.subrange(0, mi as int);
                let m = &ms[mi];
                let os = &m.options.options;
                let mut oi: usize = 0;
                while oi < os.len()
                    invariant
                        0 <= oi <= os@.len(),
                        pre_h == hotels@.subrange(0, hi as int),
                        pre_m == ms@.subrange(0, mi as int),
                        hi < hotels@.len(),
                        mi < ms@.len(),
                        *h == hotels@[hi as int],
                        ms@ == h.meal_plans.meal_plans@,
                        *m == ms@[mi as int],
                        os@ == m.options.options@,
                        out@.len() == spec_quads_of_hotels(pre_h).len()
                            + spec_quads_of_mealplans(*h, pre_m).len()
                            + spec_quads_of_options(*h, *m, os@.subrange(0, oi as int)).len(),
                        forall|i: int|
                            0 <= i < out@.len() ==> spec_option_matches(
                                #[trigger] out@[i],
                                (spec_quads_of_hotels(pre_h) + spec_quads_of_mealplans(*h, pre_m)
                                    + spec_quads_of_options(
                                    *h,
                                    *m,
                                    os@.subrange(0, oi as int),
                                ))[i],
                            ),
                    decreases os@.len() - oi,
                {
                    let ghost pre_o: Seq<XmlOption> = os@.subrange(0, oi as int);
                    let o = &os[oi];
                    let rooms = &o.rooms.rooms;
                    let mut ri: usize = 0;
                    while ri < rooms.len()
                        invariant
                            0 <= ri <= rooms@.len(),
                            pre_h == hotels@.subrange(0, hi as int),
                            pre_m == ms@.subrange(0, mi as int),
                            pre_o == os@.subrange(0, oi as int),
                            hi < hotels@.len(),
                            mi < ms@.len(),
                            oi < os@.len(),
                            *h == hotels@[hi as int],
                            ms@ == h.meal_plans.meal_plans@,
                            *m == ms@[mi as int],
                            os@ == m.options.options@,
                            *o == os@[oi as int],
                            rooms@ == o.rooms.rooms@,
                            out@.len() == spec_quads_of_hotels(pre_h).len()
                                + spec_quads_of_mealplans(*h, pre_m).len()
                                + spec_quads_of_options(*h, *m, pre_o).len() + ri,
                            forall|i: int|
                                0 <= i < out@.len() ==> spec_option_matches(
                                    #[trigger] out@[i],
                                    (spec_quads_of_hotels(pre_h) + spec_quads_of_mealplans(
                                        *h,
                                        pre_m,
                                    ) + spec_quads_of_options(*h, *m, pre_o)
                                        + spec_rooms_of_option(*h, *m, *o).subrange(
                                        0,
                                        ri as int,
                                    ))[i],
                                ),
                        decreases rooms@.len() - ri,
                    {
                        let ho = option_from_room(h, m, o, &rooms[ri]);
                        out.push(ho);
                        proof {
                            assert(spec_rooms_of_option(*h, *m, *o).subrange(0, ri + 1)
                                =~= spec_rooms_of_option(*h, *m, *o).subrange(0, ri as int).push(
                                (*h, *m, *o, rooms@[ri as int]),
                            ));
                        }
                        ri = ri + 1;
                    }
                    proof {
                        assert(os@.subrange(0, oi + 1).drop_last() =~= pre_o);
                        assert(os@.subrange(0, oi + 1).last() == os@[oi as int]);
                        assert(spec_rooms_of_option(*h, *m, *o).subrange(
                            0,
                            spec_rooms_of_option(*h, *m, *o).len() as int,
                        ) =~= spec_rooms_of_option(*h, *m, *o));
                        assert(spec_quads_of_options(*h, *m, os@.subrange(0, oi + 1))
                            =~= spec_quads_of_options(*h, *m, pre_o) + spec_rooms_of_option(
                            *h,
                            *m,
                            *o,
                        ));
                    }
                    oi = oi + 1;
                }
                proof {
                    assert(ms@.subrange(0, mi + 1).drop_last() =~= pre_m);
                    assert(ms@.subrange(0, mi + 1).last() == ms@[mi as int]);
                    assert(os@.subrange(0, os@.len() as int) =~= os@);
                    assert(spec_quads_of_mealplans(*h, ms@.subrange(0, mi + 1))
                        =~= spec_quads_of_mealplans(*h, pre_m) + spec_quads_of_options(
                        *h,
                        *m,
                        os@,
                    ));
                }
                mi = mi + 1;
            }
            proof {
                assert(hotels@.subrange(0, hi + 1).drop_last() =~= pre_h);
                assert(hotels@.subrange(0, hi + 1).last() == hotels@[hi as int]);
                assert(ms@.subrange(0, ms@.len() as int) =~= ms@);
                assert(spec_quads_of_hotels(hotels@.subrange(0, hi + 1))
                    =~= spec_quads_of_hotels(pre_h) + spec_quads_of_mealplans(*h, ms@));
            }
            hi = hi + 1;
        }
        proof {
            assert(hotels@.subrange(0, hotels@.len() as int) =~= hotels@);
            reveal_strlit("example_search");
            reveal_strlit("GBP");
            reveal_strlit("US");
            reveal_strlit("2025-06-11");
            reveal_strlit("2025-06-12");
        }
        let total = out.len();
        ProcessedResponse {
            search_id: String::from_str("example_search"),
            total_options: total,
            hotels: out,
            currency: String::from_str("GBP"),
            nationality: String::from_str("US"),
            check_in: String::from_str("2025-06-11"),
            check_out: String::from_str("2025-06-12"),
        }
    }
}

// --- supplier -> XML response --------------------------------------------------

/// The (room, rate) pairs of one room, in rate order.
pub open spec fn spec_rate_pairs_of_room(room: SupplierRoom) -> Seq<(SupplierRoom, SupplierRate)> {
    Seq::new(room.rates@.len(), |i: int| (room, room.rates@[i]))
}

/// All (room, rate) pairs of a hotel's rooms, in document order.
pub open spec fn spec_rate_pairs(rooms: Seq<SupplierRoom>) -> Seq<(SupplierRoom, SupplierRate)>
    decreases rooms.len(),
{
    if rooms.len() == 0 {
        Seq::empty()
    } else {
        spec_rate_pairs(rooms.drop_last()) + spec_rate_pairs_of_room(rooms.last())
    }
}

/// The distinct board types of the pairs, in first-occurrence order.
pub open spec fn spec_board_list(pairs: Seq<(SupplierRoom, SupplierRate)>) -> Seq<Seq<char>>
    decreases pairs.len(),
{
    if pairs.len() == 0 {
        Seq::empty()
    } else {
        let pre = spec_board_list(pairs.drop_last());
        if pre.contains(pairs.last().1.board_type@) {
            pre
        } else {
            pre.push(pairs.last().1.board_type@)
        }
    }
}

/// Selects the pairs rated under one board type.
pub open spec fn spec_board_pred(bt: Seq<char>) -> spec_fn((SupplierRoom, SupplierRate)) -> bool {
    |p: (SupplierRoom, SupplierRate)| p.1.board_type@ == bt
}

/// How one XML cancellation penalty reflects one supplier policy: a fixed
/// amount in the response currency, due by the policy's date.
pub open spec fn spec_penalty_matches(
    cp: XmlCancelPenalty,
    sp: SupplierCancellationPolicy,
    currency: String,
) -> bool {
    &&& cp.hours_before@ == "N/A"@
    &&& cp.penalty.penalty_type@ == "Importe"@
    &&& cp.penalty.currency == currency
    &&& cp.penalty.value == sp.amount
    &&& cp.deadline == sp.from_date
}

/// How one XML room reflects one (room, rate) pair.
pub open spec fn spec_xml_room_matches(
    xr: XmlRoom,
    p: (SupplierRoom, SupplierRate),
    currency: String,
) -> bool {
    &&& xr.id@ == "1#"@ + p.0.room_id@
    &&& xr.room_candidate_ref_id@ == "1"@
    &&& xr.code == p.0.room_id
    &&& xr.description == p.0.name
    &&& xr.number_of_units@ == "1"@
    &&& xr.non_refundable@ == "false"@
    &&& xr.price.currency == currency
    &&& xr.price.amount == p.1.price
    &&& xr.price.binding@ == "false"@
    &&& xr.price.commission@ == "-1"@
    &&& xr.price.minimum_selling_price@ == "-1"@
    &&& xr.cancel_penalties.non_refundable@ == "false"@
    &&& xr.cancel_penalties.cancel_penalties@.len() == p.1.cancellation_policies@.len()
    &&& forall|i: int|
        0 <= i < p.1.cancellation_policies@.len() ==> spec_penalty_matches(
            #[trigger] xr.cancel_penalties.cancel_penalties@[i],
            p.1.cancellation_policies@[i],
            currency,
        )
}

/// How one XML option reflects the pairs of one board type: a merchant-pay
/// hotel option whose headline price is the first pair's, holding one XML
/// room per pair and the hotel's search token.
pub open spec fn spec_xml_option_matches(
    o: XmlOption,
    pairs: Seq<(SupplierRoom, SupplierRate)>,
    currency: String,
    hotel_id: String,
    search_id: String,
) -> bool {
    &&& o.option_type@ == "Hotel"@
    &&& o.payment_type@ == "MerchantPay"@
    &&& o.status@ == "OK"@
    &&& o.price.currency == currency
    &&& o.price.amount@ == if pairs.len() > 0 {
        pairs[0].1.price@
    } else {
        "0.0"@
    }
    &&& o.price.binding@ == "false"@
    &&& o.price.commission@ == "-1"@
    &&& o.price.minimum_selling_price@ == "-1"@
    &&& o.rooms.rooms@.len() == pairs.len()
    &&& forall|i: int|
        0 <= i < pairs.len() ==> spec_xml_room_matches(
            #[trigger] o.rooms.rooms@[i],
            pairs[i],
            currency,
        )
    &&& o.parameters.parameters@.len() == 1
    &&& o.parameters.parameters@[0].key@ == "search_token"@
    &&& o.parameters.parameters@[0].value@ == hotel_id@ + "|||||"@ + search_id@
}

/// How one XML hotel reflects one supplier hotel: one meal plan per distinct
/// board type in first-occurrence order, each holding one option over that
/// board type's pairs.
pub open spec fn spec_xml_hotel_matches(
    xh: XmlHotel,
    sh: SupplierHotel,
    currency: String,
    search_id: String,
) -> bool {
    let pairs = spec_rate_pairs(sh.rooms@);
    let boards = spec_board_list(pairs);
    &&& xh.hotel_id == sh.hotel_id
    &&& xh.hotel_name == sh.name
    &&& xh.meal_plans.meal_plans@.len() == boards.len()
    &&& forall|b: int|
        0 <= b < boards.len() ==> {
            let mp = #[trigger] xh.meal_plans.meal_plans@[b];
            &&& mp.code@ == boards[b]
            &&& mp.options.options@.len() == 1
            &&& spec_xml_option_matches(
                mp.options.options@[0],
                pairs.filter(spec_board_pred(boards[b])),
                currency,
                sh.hotel_id,
                search_id,
            )
        }
}

/// Builds one XML penalty.
fn xml_penalty_from(sp: &SupplierCancellationPolicy, currency: &String) -> (r: XmlCancelPenalty)
    ensures
        spec_penalty_matches(r, *sp, *currency),
{
    proof {
        reveal_strlit("N/A");
        reveal_strlit("Importe");
    }
    XmlCancelPenalty {
        hours_before: String::from_str("N/A"),
        penalty: XmlPenalty {
            penalty_type: String::from_str("Importe"),
            currency: currency.clone(),
            value: sp.amount.clone(),
        },
        deadline: sp.from_date.clone(),
    }
}

/// Builds one XML price tag around decimal text.
fn xml_price_from(amount: String, currency: &String) -> (r: XmlPrice)
    ensures
        r.currency == *currency,
        r.amount == amount,
        r.binding@ == "false"@,
        r.commission@ == "-1"@,
        r.minimum_selling_price@ == "-1"@,
{
    XmlPrice {
        currency: currency.clone(),
        amount,
        binding: String::from_str("false"),
        commission: String::from_str("-1"),
        minimum_selling_price: String::from_str("-1"),
    }
}

/// Builds one XML room from one (room, rate) pair.
fn xml_room_from(room: &SupplierRoom, rate: &SupplierRate, currency: &String) -> (r: XmlRoom)
    ensures
        spec_xml_room_matches(r, (*room, *rate), *currency),
{
    proof {
        reveal_strlit("1#");
        reveal_strlit("1");
        reveal_strlit("false");
    }
    let mut penalties: Vec<XmlCancelPenalty> = Vec::new();
    let cps = &rate.cancellation_policies;
    let mut i: usize = 0;
    while i < cps.len()
        invariant
            0 <= i <= cps@.len(),
            penalties@.len() == i,
            forall|j: int|
                0 <= j < i ==> spec_penalty_matches(
                    #[trigger] penalties@[j],
                    cps@[j],
                    *currency,
                ),
        decreases cps@.len() - i,
    {
        let cp = xml_penalty_from(&cps[i], currency);
        penalties.push(cp);
        i = i + 1;
    }
    let mut id = String::from_str("1#");
    id.append(room.room_id.as_str());
    XmlRoom {
        id,
        room_candidate_ref_id: String::from_str("1"),
        code: room.room_id.clone(),
        description: room.name.clone(),
        number_of_units: String::from_str("1"),
        non_refundable: String::from_str("false"),
        price: xml_price_from(rate.price.clone(), currency),
        cancel_penalties: XmlCancelPenalties {
            non_refundable: String::from_str("false"),
            cancel_penalties: penalties,
        },
    }
}

/// `idx` locates every (room, rate) pair of `rooms`, in order.
pub open spec fn spec_pairs_idx_ok(idx: Seq<(usize, usize)>, rooms: Seq<SupplierRoom>) -> bool {
    &&& idx.len() == spec_rate_pairs(rooms).len()
    &&& forall|k: int|
        0 <= k < idx.len() ==> {
            let a = (#[trigger] idx[k]).0 as int;
            let b = idx[k].1 as int;
            &&& 0 <= a < rooms.len()
            &&& 0 <= b < rooms[a].rates@.len()
            &&& spec_rate_pairs(rooms)[k] == (rooms[a], rooms[a].rates@[b])
        }
}

/// Locates every (room, rate) pair of `rooms`, in document order.
fn collect_pair_indices(rooms: &Vec<SupplierRoom>) -> (idx: Vec<(usize, usize)>)
    ensures
        spec_pairs_idx_ok(idx@, rooms@),
{
    let mut idx: Vec<(usize, usize)> = Vec::new();
    let mut ri: usize = 0;
    while ri < rooms.len()
        invariant
            0 <= ri <= rooms@.len(),
            idx@.len() == spec_rate_pairs(rooms@.subrange(0, ri as int)).len(),
            forall|k: int|
                0 <= k < idx@.len() ==> {
                    let a = (#[trigger] idx@[k]).0 as int;
                    let b = idx@[k].1 as int;
                    &&& 0 <= a < rooms@.len()
                    &&& 0 <= b < rooms@[a].rates@.len()
                    &&& spec_rate_pairs(rooms@.subrange(0, ri as int))[k] == (
                    rooms@[a],
                    rooms@[a].rates@[b],
                    )
                },
        decreases rooms@.len() - ri,
    {
        let ghost pre_r: Seq<SupplierRoom> = rooms@.subrange(0, ri as int);
        let room = &rooms[ri];
        let mut si: usize = 0;
        while si < room.rates.len()
            invariant
                0 <= si <= room.rates@.len(),
                pre_r == rooms@.subrange(0, ri as int),
                ri < rooms@.len(),
                *room == rooms@[ri as int],
                idx@.len() == spec_rate_pairs(pre_r).len() + si,
                forall|k: int|
                    0 <= k < idx@.len() ==> {
                        let a = (#[trigger] idx@[k]).0 as int;
                        let b = idx@[k].1 as int;
                        &&& 0 <= a < rooms@.len()
                        &&& 0 <= b < rooms@[a].rates@.len()
                        &&& (spec_rate_pairs(pre_r) + spec_rate_pairs_of_room(*room).subrange(
                            0,
                            si as int,
                        ))[k] == (rooms@[a], rooms@[a].rates@[b])
                    },
            decreases room.rates@.len() - si,
        {
            idx.push((ri, si));
            proof {
                assert(spec_rate_pairs_of_room(*room).subrange(0, si + 1)
                    =~= spec_rate_pairs_of_room(*room).subrange(0, si as int).push(
                    (*room, room.rates@[si as int]),
                ));
            }
            si = si + 1;
        }
        proof {
            assert(rooms@.subrange(0, ri + 1).drop_last() =~= pre_r);
            assert(rooms@.subrange(0, ri + 1).last() == rooms@[ri as int]);
            assert(spec_rate_pairs_of_room(*room).subrange(
                0,
                spec_rate_pairs_of_room(*room).len() as int,
            ) =~= spec_rate_pairs_of_room(*room));
            assert(spec_rate_pairs(rooms@.subrange(0, ri + 1)) =~= spec_rate_pairs(pre_r)
                + spec_rate_pairs_of_room(*room));
        }
        ri = ri + 1;
    }
    proof {
        assert(rooms@.subrange(0, rooms@.len() as int) =~= rooms@);
    }
    idx
}

/// Builds one XML hotel: the distinct board types of the hotel's rates
/// become meal plans, each holding one option over that board type's pairs.
fn xml_hotel_from(sh: &SupplierHotel, currency: &String, search_id: &String) -> (r: XmlHotel)
    ensures
        spec_xml_hotel_matches(r, *sh, *currency, *search_id),
{
    let rooms = &sh.rooms;
    let ghost pairs: Seq<(SupplierRoom, SupplierRate)> = spec_rate_pairs(rooms@);
    let idx = collect_pair_indices(rooms);

    // distinct board types in first-occurrence order
    let mut boards: Vec<String> = Vec::new();
    let mut k: usize = 0;
    while k < idx.len()
        invariant
            spec_pairs_idx_ok(idx@, rooms@),
            pairs == spec_rate_pairs(rooms@),
            0 <= k <= idx@.len(),
            boards@.len() == spec_board_list(pairs.subrange(0, k as int)).len(),
            forall|x: int|
                0 <= x < boards@.len() ==> (#[trigger] boards@[x])@ == spec_board_list(
                    pairs.subrange(0, k as int),
                )[x],
        decreases idx@.len() - k,
    {
        let ghost pre: Seq<Seq<char>> = spec_board_list(pairs.subrange(0, k as int));
        let (a, b) = idx[k];
        let bt = &rooms[a].rates[b].board_type;
        let already = in_list(&boards, bt.as_str());
        proof {
            assert(pairs.subrange(0, k + 1).drop_last() =~= pairs.subrange(0, k as int));
            assert(pairs.subrange(0, k + 1).last() == pairs[k as int]);
            assert(pairs[k as int].1.board_type@ == bt@);
            if already {
                let i = choose|i: int| 0 <= i < boards@.len() && (#[trigger] boards@[i])@ == bt@;
                assert(pre[i] == bt@);
                assert(pre.contains(bt@));
            } else {
                assert forall|i: int| 0 <= i < pre.len() implies pre[i] != bt@ by {
                    assert(boards@[i]@ == pre[i]);
                }
                assert(!pre.contains(bt@));
            }
        }
        if !already {
            boards.push(bt.clone());
        }
        k = k + 1;
    }
    proof {
        assert(pairs.subrange(0, pairs.len() as int) =~= pairs);
    }

    // one meal plan per board type
    let mut mps: Vec<XmlMealPlan> = Vec::new();
    let ghost blist: Seq<Seq<char>> = spec_board_list(pairs);
    let mut b: usize = 0;
    while b < boards.len()
        invariant
            spec_pairs_idx_ok(idx@, rooms@),
            pairs == spec_rate_pairs(rooms@),
            blist == spec_board_list(pairs),
            boards@.len() == blist.len(),
            forall|x: int| 0 <= x < boards@.len() ==> (#[trigger] boards@[x])@ == blist[x],
            0 <= b <= boards@.len(),
            mps@.len() == b,
            forall|x: int|
                0 <= x < b ==> {
                    let mp = #[trigger] mps@[x];
                    &&& mp.code@ == blist[x]
                    &&& mp.options.options@.len() == 1
                    &&& spec_xml_option_matches(
                        mp.options.options@[0],
                        pairs.filter(spec_board_pred(blist[x])),
                        *currency,
                        sh.hotel_id,
                        *search_id,
                    )
                },
        decreases boards@.len() - b,
    {
        let board = &boards[b];
        let ghost bpred: spec_fn((SupplierRoom, SupplierRate)) -> bool = spec_board_pred(
            board@,
        );
        let mut opt_rooms: Vec<XmlRoom> = Vec::new();
        let mut first_amount: Option<String> = None;
        proof {
            reveal(Seq::filter);
        }
        let mut k2: usize = 0;
        while k2 < idx.len()
            invariant
                spec_pairs_idx_ok(idx@, rooms@),
                pairs == spec_rate_pairs(rooms@),
                bpred == spec_board_pred(board@),
                b < boards@.len(),
                *board == boards@[b as int],
                0 <= k2 <= idx@.len(),
                opt_rooms@.len() == pairs.subrange(0, k2 as int).filter(bpred).len(),
                forall|i: int|
                    0 <= i < opt_rooms@.len() ==> spec_xml_room_matches(
                        #[trigger] opt_rooms@[i],
                        pairs.subrange(0, k2 as int).filter(bpred)[i],
                        *currency,
                    ),
                match first_amount {
                    Some(amt) => pairs.subrange(0, k2 as int).filter(bpred).len() > 0
                        && amt == pairs.subrange(0, k2 as int).filter(bpred)[0].1.price,
                    None => pairs.subrange(0, k2 as int).filter(bpred).len() == 0,
                },
            decreases idx@.len() - k2,
        {
            let ghost prefix: Seq<(SupplierRoom, SupplierRate)> = pairs.subrange(0, k2 as int);
            let (a, c) = idx[k2];
            let rate = &rooms[a].rates[c];
            let is_match = crate::strutil::str_eq(rate.board_type.as_str(), board.as_str());
            if is_match {
                let xr = xml_room_from(&rooms[a], rate, currency);
                if first_amount.is_none() {
                    first_amount = Some(rate.price.clone());
                }
                opt_rooms.push(xr);
            }
            proof {
                reveal(Seq::filter);
                let s1 = pairs.subrange(0, k2 + 1);
                assert(s1.drop_last() =~= prefix);
                assert(s1.last() == pairs[k2 as int]);
                assert(pairs[k2 as int] == (rooms@[a as int], rooms@[a as int].rates@[c as int]));
                assert(bpred(pairs[k2 as int]) == is_match);
                assert(s1.filter(bpred) == if is_match {
                    prefix.filter(bpred).push(pairs[k2 as int])
                } else {
                    prefix.filter(bpred)
                });
            }
            k2 = k2 + 1;
        }
        proof {
            assert(pairs.subrange(0, pairs.len() as int) =~= pairs);
        }
        let amount: String = match first_amount {
            Some(amt) => amt,
            None => {
                proof {
                    reveal_strlit("0.0");
                }
                String::from_str("0.0")
            },
        };
        proof {
            reveal_strlit("Hotel");
            reveal_strlit("MerchantPay");
            reveal_strlit("OK");
            reveal_strlit("search_token");
            reveal_strlit("|||||");
        }
        let mut token = sh.hotel_id.clone();
        token.append("|||||");
        token.append(search_id.as_str());
        let mut params: Vec<XmlParameter> = Vec::new();
        params.push(XmlParameter { key: String::from_str("search_token"), value: token });
        let option = XmlOption {
            option_type: String::from_str("Hotel"),
            payment_type: String::from_str("MerchantPay"),
            status: String::from_str("OK"),
            price: xml_price_from(amount, currency),
            rooms: XmlRooms { rooms: opt_rooms },
            parameters: XmlParameters { parameters: params },
        };
        let mut options: Vec<XmlOption> = Vec::new();
        options.push(option);
        mps.push(XmlMealPlan { code: board.clone(), options: XmlOptions { options } });
        b = b + 1;
    }
    XmlHotel {
        hotel_id: sh.hotel_id.clone(),
        hotel_name: sh.name.clone(),
        meal_plans: XmlMealPlans { meal_plans: mps },
    }
}

impl XmlProcessedResponse {
    /// Converts a supplier response: one XML hotel per supplier hotel, in
    /// order, each grouping its rates by board type.
    pub fn from_supplier(item: &SupplierResponse) -> (r: XmlProcessedResponse)
        ensures
            r.hotels.hotels@.len() == item.hotels@.len(),
            forall|h: int|
                0 <= h < item.hotels@.len() ==> spec_xml_hotel_matches(
                    #[trigger] r.hotels.hotels@[h],
                    item.hotels@[h],
                    item.currency,
                    item.search_id,
                ),
    {
        let mut xml_hotels: Vec<XmlHotel> = Vec::new();
        let mut hi: usize = 0;
        while hi < item.hotels.len()
            invariant
                0 <= hi <= item.hotels@.len(),
                xml_hotels@.len() == hi,
                forall|h: int|
                    0 <= h < hi ==> spec_xml_hotel_matches(
                        #[trigger] xml_hotels@[h],
                        item.hotels@[h],
                        item.currency,
                        item.search_id,
                    ),
            decreases item.hotels@.len() - hi,
        {
            let xh = xml_hotel_from(&item.hotels[hi], &item.currency, &item.search_id);
            xml_hotels.push(xh);
            hi = hi + 1;
        }
        XmlProcessedResponse { hotels: XmlHotels { hotels: xml_hotels } }
    }
}

// --- filtering ---------------------------------------------------------------

/// Whether some string in `ts` reads like `s`.
pub open spec fn spec_in_list(ts: Seq<String>, s: Seq<char>) -> bool {
    exists|i: int| 0 <= i < ts.len() && (#[trigger] ts[i])@ == s
}

/// Whether an option passes the filter criteria.
pub open spec fn spec_passes(ho: HotelOption, c: FilterCriteria) -> bool {
    &&& match c.max_price_milli {
        Some(max) => ho.price.amount_milli <= max,
        None => true,
    }
    &&& match c.board_types {
        Some(ts) => spec_in_list(ts@, ho.board_type@),
        None => true,
    }
    &&& (c.free_cancellation ==> ho.is_refundable)
    &&& match c.hotel_ids {
        Some(ids) => spec_in_list(ids@, ho.hotel_id@),
        None => true,
    }
    &&& match c.room_type_contains {
        Some(sub) => crate::strutil::spec_contains_sub(ho.room_type@, sub@),
        None => true,
    }
}

pub open spec fn spec_filter_pred(c: FilterCriteria) -> spec_fn(HotelOption) -> bool {
    |ho: HotelOption| spec_passes(ho, c)
}

/// Two options with the same content (their policy lists compared by view).
pub open spec fn spec_same_option(a: HotelOption, b: HotelOption) -> bool {
    &&& a.hotel_id == b.hotel_id
    &&& a.hotel_name == b.hotel_name
    &&& a.room_type == b.room_type
    &&& a.room_description == b.room_description
    &&& a.board_type == b.board_type
    &&& a.price.amount_milli == b.price.amount_milli
    &&& a.price.currency == b.price.currency
    &&& a.cancellation_policies@ == b.cancellation_policies@
    &&& a.payment_type == b.payment_type
    &&& a.is_refundable == b.is_refundable
    &&& a.search_token == b.search_token
}

/// Copies one option.
fn clone_option(ho: &HotelOption) -> (r: HotelOption)
    ensures
        spec_same_option(r, *ho),
{
    HotelOption {
        hotel_id: ho.hotel_id.clone(),
        hotel_name: ho.hotel_name.clone(),
        room_type: ho.room_type.clone(),
        room_description: ho.room_description.clone(),
        board_type: ho.board_type.clone(),
        price: Price { amount_milli: ho.price.amount_milli, currency: ho.price.currency.clone() },
        cancellation_policies: clone_policies(&ho.cancellation_policies),
        payment_type: ho.payment_type.clone(),
        is_refundable: ho.is_refundable,
        search_token: ho.search_token.clone(),
    }
}

/// Copies a policy list.
fn clone_policies(ps: &Vec<ProcessedCancellationPolicy>) -> (r: Vec<ProcessedCancellationPolicy>)
    ensures
        r@ =~= ps@,
{
    let mut out: Vec<ProcessedCancellationPolicy> = Vec::new();
    let mut i: usize = 0;
    while i < ps.len()
        invariant
            0 <= i <= ps@.len(),
            out@.len() == i,
            forall|j: int| 0 <= j < i ==> #[trigger] out@[j] == ps@[j],
        decreases ps@.len() - i,
    {
        let p = &ps[i];
        out.push(
            ProcessedCancellationPolicy {
                deadline: p.deadline.clone(),
                penalty_amount_milli: p.penalty_amount_milli,
                currency: p.currency.clone(),
                hours_before: p.hours_before,
                penalty_type: p.penalty_type.clone(),
            },
        );
        i = i + 1;
    }
    out
}

/// Whether `s` is one of the strings in `ts`.
fn in_list(ts: &Vec<String>, s: &str) -> (r: bool)
    ensures
        r == spec_in_list(ts@, s@),
{
    let mut i: usize = 0;
    while i < ts.len()
        invariant
            0 <= i <= ts@.len(),
            forall|j: int| 0 <= j < i ==> (#[trigger] ts@[j])@ != s@,
        decreases ts@.len() - i,
    {
        if crate::strutil::str_eq(ts[i].as_str(), s) {
            return true;
        }
        i = i + 1;
    }
    false
}

/// Whether one option passes the criteria.
fn passes(ho: &HotelOption, c: &FilterCriteria) -> (r: bool)
    ensures
        r == spec_passes(*ho, *c),
{
    let price_ok: bool = match &c.max_price_milli {
        Some(max) => ho.price.amount_milli <= *max,
        None => true,
    };
    if !price_ok {
        return false;
    }
    let board_ok: bool = match &c.board_types {
        Some(ts) => in_list(ts, ho.board_type.as_str()),
        None => true,
    };
    if !board_ok {
        return false;
    }
    if c.free_cancellation && !ho.is_refundable {
        return false;
    }
    let id_ok: bool = match &c.hotel_ids {
        Some(ids) => in_list(ids, ho.hotel_id.as_str()),
        None => true,
    };
    if !id_ok {
        return false;
    }
    match &c.room_type_contains {
        Some(sub) => crate::strutil::str_contains(ho.room_type.as_str(), sub.as_str()),
        None => true,
    }
}

// --- request parameter extraction --------------------------------------------

/// `needle` first occurs in `hay` at `i`.
pub open spec fn spec_found_at(hay: Seq<char>, needle: Seq<char>, i: int) -> bool {
    &&& crate::strutil::matches_at(hay, needle, i)
    &&& forall|j: int| 0 <= j < i ==> !crate::strutil::matches_at(hay, needle, j)
}

/// `needle` last occurs in `hay` at `i`.
pub open spec fn spec_found_last_at(hay: Seq<char>, needle: Seq<char>, i: int) -> bool {
    &&& crate::strutil::matches_at(hay, needle, i)
    &&& forall|j: int| i < j ==> !crate::strutil::matches_at(hay, needle, j)
}

/// `out` is the trimmed text of the last `open`..`close` element of `xml`:
/// empty when the opening tag never occurs, and otherwise the text between
/// the last opening tag and the next closing tag, without surrounding ASCII
/// whitespace. (A reader that scans every element and overwrites on each
/// match keeps the last occurrence; this mirrors that.)
pub open spec fn spec_extracted(
    xml: Seq<char>,
    open: Seq<char>,
    close: Seq<char>,
    out: Seq<char>,
) -> bool {
    if !crate::strutil::spec_contains_sub(xml, open) {
        out =~= Seq::<char>::empty()
    } else {
        exists|i: int, j: int|
            #![trigger spec_found_last_at(xml, open, i), spec_found_at(xml.subrange(i + open.len(), xml.len() as int), close, j)]
            {
                let rest = xml.subrange(i + open.len(), xml.len() as int);
                let text = rest.subrange(0, j);
                &&& spec_found_last_at(xml, open, i)
                &&& spec_found_at(rest, close, j)
                &&& exists|lo: int, hi: int|
                    crate::strutil::spec_trimmed(text, lo, hi) && out == text.subrange(lo, hi)
            }
    }
}

/// The element can be extracted: its opening tag is absent, or a closing tag
/// follows the last opening tag.
pub open spec fn spec_tag_ok(xml: Seq<char>, open: Seq<char>, close: Seq<char>) -> bool {
    crate::strutil::spec_contains_sub(xml, open) ==> exists|i: int|
        #[trigger] spec_found_last_at(xml, open, i) && crate::strutil::spec_contains_sub(
            xml.subrange(i + open.len(), xml.len() as int),
            close,
        )
}

/// Extracts the trimmed text of the last `open`..`close` element (repeated
/// elements overwrite, so the last one wins).
///
/// Returns the empty string when the opening tag never occurs, and fails
/// exactly when the opening tag occurs but no closing tag follows its last
/// occurrence. The scan matches the literal tag text: an opening tag written
/// with attributes is not recognized.
fn extract_tag_text(xml: &str, open: &str, close: &str) -> (r: Result<String, ()>)
    ensures
        r matches Ok(t) ==> spec_extracted(xml@, open@, close@, t@),
        r is Ok <==> spec_tag_ok(xml@, open@, close@),
{
    let o = crate::strutil::find_sub_last(xml, open);
    match o {
        None => {
            proof {
                reveal_strlit("");
            }
            Ok(String::new())
        },
        Some(i) => {
            let xlen: usize = xml.unicode_len();
            let olen: usize = open.unicode_len();
            assert(i + olen <= xlen);
            let start: usize = i + olen;
            let rest: &str = xml.substring_char(start, xlen);
            let c = crate::strutil::find_sub(rest, close);
            match c {
                None => {
                    proof {
                        assert(spec_found_last_at(xml@, open@, i as int));
                    }
                    Err(())
                },
                Some(j) => {
                    let text: &str = rest.substring_char(0, j);
                    let out = crate::strutil::trim_ws(text);
                    proof {
                        assert(spec_found_last_at(xml@, open@, i as int));
                        assert(spec_found_at(rest@, close@, j as int));
                        assert(rest@ == xml@.subrange(i + open@.len(), xml@.len() as int));
                        assert(text@ == rest@.subrange(0, j as int));
                    }
                    Ok(out)
                },
            }
        },
    }
}

// --- the processor -----------------------------------------------------------

/// Stateless processor over supplier payloads.
pub struct HotelSearchProcessor {}

impl HotelSearchProcessor {
    pub fn new() -> (r: HotelSearchProcessor) {
        HotelSearchProcessor {  }
    }

    /// The options of `response` that pass `criteria`, in order.
    pub fn filter_options(
        &self,
        response: &ProcessedResponse,
        criteria: &FilterCriteria,
    ) -> (r: Vec<HotelOption>)
        ensures
            r@.len() == response.hotels@.filter(spec_filter_pred(*criteria)).len(),
            forall|i: int|
                0 <= i < r@.len() ==> spec_same_option(
                    #[trigger] r@[i],
                    response.hotels@.filter(spec_filter_pred(*criteria))[i],
                ),
    {
        let ghost pred: spec_fn(HotelOption) -> bool = spec_filter_pred(*criteria);
        let hotels = &response.hotels;
        let mut out: Vec<HotelOption> = Vec::new();
        proof {
            reveal(Seq::filter);
        }
        let mut i: usize = 0;
        while i < hotels.len()
            invariant
                pred == spec_filter_pred(*criteria),
                0 <= i <= hotels@.len(),
                out@.len() == hotels@.subrange(0, i as int).filter(pred).len(),
                forall|k: int|
                    0 <= k < out@.len() ==> spec_same_option(
                        #[trigger] out@[k],
                        hotels@.subrange(0, i as int).filter(pred)[k],
                    ),
            decreases hotels@.len() - i,
        {
            let ghost pre: Seq<HotelOption> = hotels@.subrange(0, i as int);
            if passes(&hotels[i], criteria) {
                let c = clone_option(&hotels[i]);
                out.push(c);
            }
            proof {
                reveal(Seq::filter);
                let s1 = hotels@.subrange(0, i + 1);
                assert(s1.drop_last() =~= pre);
                assert(s1.last() == hotels@[i as int]);
                assert(s1.filter(pred) == if pred(hotels@[i as int]) {
                    pre.filter(pred).push(hotels@[i as int])
                } else {
                    pre.filter(pred)
                });
            }
            i = i + 1;
        }
        proof {
            assert(hotels@.subrange(0, hotels@.len() as int) =~= hotels@);
        }
        out
    }

    /// Pulls the currency, nationality, start date, and end date out of an
    /// availability request: for each, the trimmed text of the element's
    /// last occurrence (repeated elements overwrite), empty when absent.
    /// Fails exactly when some present element never closes. The scan looks
    /// for the literal tags, so an opening tag written with attributes is
    /// treated as absent.
    pub fn extract_search_params(&self, request_xml: &str) -> (r: Result<
        (String, String, String, String),
        crate::errors::ProcessingError,
    >)
        ensures
            r matches Ok(t) ==> {
                &&& spec_extracted(request_xml@, "<Currency>"@, "</Currency>"@, t.0@)
                &&& spec_extracted(request_xml@, "<Nationality>"@, "</Nationality>"@, t.1@)
                &&& spec_extracted(request_xml@, "<StartDate>"@, "</StartDate>"@, t.2@)
                &&& spec_extracted(request_xml@, "<EndDate>"@, "</EndDate>"@, t.3@)
            },
            r is Ok <==> {
                &&& spec_tag_ok(request_xml@, "<Currency>"@, "</Currency>"@)
                &&& spec_tag_ok(request_xml@, "<Nationality>"@, "</Nationality>"@)
                &&& spec_tag_ok(request_xml@, "<StartDate>"@, "</StartDate>"@)
                &&& spec_tag_ok(request_xml@, "<EndDate>"@, "</EndDate>"@)
            },
    {
        let currency = match extract_tag_text(request_xml, "<Currency>", "</Currency>") {
            Ok(t) => t,
            Err(_) => {
                return Err(crate::errors::ProcessingError::XmlParseError(String::from_str("an element never closes")));
            },
        };
        let nationality = match extract_tag_text(request_xml, "<Nationality>", "</Nationality>") {
            Ok(t) => t,
            Err(_) => {
                return Err(crate::errors::ProcessingError::XmlParseError(String::from_str("an element never closes")));
            },
        };
        let start_date = match extract_tag_text(request_xml, "<StartDate>", "</StartDate>") {
            Ok(t) => t,
            Err(_) => {
                return Err(crate::errors::ProcessingError::XmlParseError(String::from_str("an element never closes")));
            },
        };
        let end_date = match extract_tag_text(request_xml, "<EndDate>", "</EndDate>") {
            Ok(t) => t,
            Err(_) => {
                return Err(crate::errors::ProcessingError::XmlParseError(String::from_str("an element never closes")));
            },
        };
        Ok((currency, nationality, start_date, end_date))
    }
}

/// Parses an hour count; malformed text parses to zero.
pub fn parse_hours(s: &str) -> (r: i32)
    ensures
        r == spec_hours_val(s@),
{
    let len = s.unicode_len();
    if len >= 1 && s.get_char(0) == '-' {
        if 2 <= len && len <= 10 && all_digits_range(s, 1, len) {
            proof {
                assert(s@.subrange(1, len as int) =~= s@.drop_first());
                lemma_digits_val_pow(s@.drop_first(), 9);
                reveal_with_fuel(spec_pow10, 10);
                assert(spec_pow10(9) == 1_000_000_000);
            }
            let v: u64 = digits_val(s, 1, len);
            -(v as i32)
        } else {
            proof {
                assert(s@.subrange(1, len as int) =~= s@.drop_first());
            }
            0
        }
    } else {
        if 1 <= len && len <= 9 && all_digits_range(s, 0, len) {
            proof {
                assert(s@.subrange(0, len as int) =~= s@);
                lemma_digits_val_pow(s@, 9);
                reveal_with_fuel(spec_pow10, 10);
                assert(spec_pow10(9) == 1_000_000_000);
            }
            let v: u64 = digits_val(s, 0, len);
            v as i32
        } else {
            proof {
                assert(s@.subrange(0, len as int) =~= s@);
            }
            0
        }
    }
}

} // verus!
