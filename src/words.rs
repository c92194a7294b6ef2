//! The fixed words of the file format, as bytes.
use vstd::prelude::*;

use crate::text::bytes_eq;

verus! {

/// The bytes of the section name `General`.
pub open spec fn general_word() -> Seq<u8> {
    seq![71u8, 101, 110, 101, 114, 97, 108]
}

/// The bytes of the section name `General`.
pub fn general_bytes() -> (r: [u8; 7])
    ensures
        r@ == general_word(),
{
    let r: [u8; 7] = [71u8, 101, 110, 101, 114, 97, 108];
    assert(r@ =~= general_word());
    r
}

/// Whether `s` is the section name `General`.
pub fn is_general(s: &[u8]) -> (r: bool)
    ensures
        r == (s@ == general_word()),
{
    let w = general_bytes();
    bytes_eq(s, w.as_slice())
}

/// The bytes of the section name `Difficulty`.
pub open spec fn difficulty_word() -> Seq<u8> {
    seq![68u8, 105, 102, 102, 105, 99, 117, 108, 116, 121]
}

/// The bytes of the section name `Difficulty`.
pub fn difficulty_bytes() -> (r: [u8; 10])
    ensures
        r@ == difficulty_word(),
{
    let r: [u8; 10] = [68u8, 105, 102, 102, 105, 99, 117, 108, 116, 121];
    assert(r@ =~= difficulty_word());
    r
}

/// Whether `s` is the section name `Difficulty`.
pub fn is_difficulty(s: &[u8]) -> (r: bool)
    ensures
        r == (s@ == difficulty_word()),
{
    let w = difficulty_bytes();
    bytes_eq(s, w.as_slice())
}

/// The bytes of the section name `TimingPoints`.
pub open spec fn timing_points_word() -> Seq<u8> {
    seq![84u8, 105, 109, 105, 110, 103, 80, 111, 105, 110, 116, 115]
}

/// The bytes of the section name `TimingPoints`.
pub fn timing_points_bytes() -> (r: [u8; 12])
    ensures
        r@ == timing_points_word(),
{
    let r: [u8; 12] = [84u8, 105, 109, 105, 110, 103, 80, 111, 105, 110, 116, 115];
    assert(r@ =~= timing_points_word());
    r
}

/// Whether `s` is the section name `TimingPoints`.
pub fn is_timing_points(s: &[u8]) -> (r: bool)
    ensures
        r == (s@ == timing_points_word()),
{
    let w = timing_points_bytes();
    bytes_eq(s, w.as_slice())
}

/// The bytes of the section name `HitObjects`.
pub open spec fn hit_objects_word() -> Seq<u8> {
    seq![72u8, 105, 116, 79, 98, 106, 101, 99, 116, 115]
}

/// The bytes of the section name `HitObjects`.
pub fn hit_objects_bytes() -> (r: [u8; 10])
    ensures
        r@ == hit_objects_word(),
{
    let r: [u8; 10] = [72u8, 105, 116, 79, 98, 106, 101, 99, 116, 115];
    assert(r@ =~= hit_objects_word());
    r
}

/// Whether `s` is the section name `HitObjects`.
pub fn is_hit_objects(s: &[u8]) -> (r: bool)
    ensures
        r == (s@ == hit_objects_word()),
{
    let w = hit_objects_bytes();
    bytes_eq(s, w.as_slice())
}

/// The bytes of the key `Mode`.
pub open spec fn mode_word() -> Seq<u8> {
    seq![77u8, 111, 100, 101]
}

/// The bytes of the key `Mode`.
pub fn mode_bytes() -> (r: [u8; 4])
    ensures
        r@ == mode_word(),
{
    let r: [u8; 4] = [77u8, 111, 100, 101];
    assert(r@ =~= mode_word());
    r
}

/// Whether `s` is the key `Mode`.
pub fn is_mode(s: &[u8]) -> (r: bool)
    ensures
        r == (s@ == mode_word()),
{
    let w = mode_bytes();
    bytes_eq(s, w.as_slice())
}

/// The bytes of the key `StackLeniency`.
pub open spec fn stack_leniency_word() -> Seq<u8> {
    seq![83u8, 116, 97, 99, 107, 76, 101, 110, 105, 101, 110, 99, 121]
}

/// The bytes of the key `StackLeniency`.
pub fn stack_leniency_bytes() -> (r: [u8; 13])
    ensures
        r@ == stack_leniency_word(),
{
    let r: [u8; 13] = [83u8, 116, 97, 99, 107, 76, 101, 110, 105, 101, 110, 99, 121];
    assert(r@ =~= stack_leniency_word());
    r
}

/// Whether `s` is the key `StackLeniency`.
pub fn is_stack_leniency(s: &[u8]) -> (r: bool)
    ensures
        r == (s@ == stack_leniency_word()),
{
    let w = stack_leniency_bytes();
    bytes_eq(s, w.as_slice())
}

/// The bytes of the key `ApproachRate`.
pub open spec fn approach_rate_word() -> Seq<u8> {
    seq![65u8, 112, 112, 114, 111, 97, 99, 104, 82, 97, 116, 101]
}

/// The bytes of the key `ApproachRate`.
pub fn approach_rate_bytes() -> (r: [u8; 12])
    ensures
        r@ == approach_rate_word(),
{
    let r: [u8; 12] = [65u8, 112, 112, 114, 111, 97, 99, 104, 82, 97, 116, 101];
    assert(r@ =~= approach_rate_word());
    r
}

/// Whether `s` is the key `ApproachRate`.
pub fn is_approach_rate(s: &[u8]) -> (r: bool)
    ensures
        r == (s@ == approach_rate_word()),
{
    let w = approach_rate_bytes();
    bytes_eq(s, w.as_slice())
}

/// The bytes of the key `OverallDifficulty`.
pub open spec fn overall_difficulty_word() -> Seq<u8> {
    seq![79u8, 118, 101, 114, 97, 108, 108, 68, 105, 102, 102, 105, 99, 117, 108, 116, 121]
}

/// The bytes of the key `OverallDifficulty`.
pub fn overall_difficulty_bytes() -> (r: [u8; 17])
    ensures
        r@ == overall_difficulty_word(),
{
    let r: [u8; 17] = [79u8, 118, 101, 114, 97, 108, 108, 68, 105, 102, 102, 105, 99, 117, 108, 116, 121];
    assert(r@ =~= overall_difficulty_word());
    r
}

/// Whether `s` is the key `OverallDifficulty`.
pub fn is_overall_difficulty(s: &[u8]) -> (r: bool)
    ensures
        r == (s@ == overall_difficulty_word()),
{
    let w = overall_difficulty_bytes();
    bytes_eq(s, w.as_slice())
}

/// The bytes of the key `CircleSize`.
pub open spec fn circle_size_word() -> Seq<u8> {
    seq![67u8, 105, 114, 99, 108, 101, 83, 105, 122, 101]
}

/// The bytes of the key `CircleSize`.
pub fn circle_size_bytes() -> (r: [u8; 10])
    ensures
        r@ == circle_size_word(),
{
    let r: [u8; 10] = [67u8, 105, 114, 99, 108, 101, 83, 105, 122, 101];
    assert(r@ =~= circle_size_word());
    r
}

/// Whether `s` is the key `CircleSize`.
pub fn is_circle_size(s: &[u8]) -> (r: bool)
    ensures
        r == (s@ == circle_size_word()),
{
    let w = circle_size_bytes();
    bytes_eq(s, w.as_slice())
}

/// The bytes of the key `HPDrainRate`.
pub open spec fn hp_drain_rate_word() -> Seq<u8> {
    seq![72u8, 80, 68, 114, 97, 105, 110, 82, 97, 116, 101]
}

/// The bytes of the key `HPDrainRate`.
pub fn hp_drain_rate_bytes() -> (r: [u8; 11])
    ensures
        r@ == hp_drain_rate_word(),
{
    let r: [u8; 11] = [72u8, 80, 68, 114, 97, 105, 110, 82, 97, 116, 101];
    assert(r@ =~= hp_drain_rate_word());
    r
}

/// Whether `s` is the key `HPDrainRate`.
pub fn is_hp_drain_rate(s: &[u8]) -> (r: bool)
    ensures
        r == (s@ == hp_drain_rate_word()),
{
    let w = hp_drain_rate_bytes();
    bytes_eq(s, w.as_slice())
}

/// The bytes of the key `SliderTickRate`.
pub open spec fn slider_tick_rate_word() -> Seq<u8> {
    seq![83u8, 108, 105, 100, 101, 114, 84, 105, 99, 107, 82, 97, 116, 101]
}

/// The bytes of the key `SliderTickRate`.
pub fn slider_tick_rate_bytes() -> (r: [u8; 14])
    ensures
        r@ == slider_tick_rate_word(),
{
    let r: [u8; 14] = [83u8, 108, 105, 100, 101, 114, 84, 105, 99, 107, 82, 97, 116, 101];
    assert(r@ =~= slider_tick_rate_word());
    r
}

/// Whether `s` is the key `SliderTickRate`.
pub fn is_slider_tick_rate(s: &[u8]) -> (r: bool)
    ensures
        r == (s@ == slider_tick_rate_word()),
{
    let w = slider_tick_rate_bytes();
    bytes_eq(s, w.as_slice())
}

/// The bytes of the key `SliderMultiplier`.
pub open spec fn slider_multiplier_word() -> Seq<u8> {
    seq![83u8, 108, 105, 100, 101, 114, 77, 117, 108, 116, 105, 112, 108, 105, 101, 114]
}

/// The bytes of the key `SliderMultiplier`.
pub fn slider_multiplier_bytes() -> (r: [u8; 16])
    ensures
        r@ == slider_multiplier_word(),
{
    let r: [u8; 16] = [83u8, 108, 105, 100, 101, 114, 77, 117, 108, 116, 105, 112, 108, 105, 101, 114];
    assert(r@ =~= slider_multiplier_word());
    r
}

/// Whether `s` is the key `SliderMultiplier`.
pub fn is_slider_multiplier(s: &[u8]) -> (r: bool)
    ensures
        r == (s@ == slider_multiplier_word()),
{
    let w = slider_multiplier_bytes();
    bytes_eq(s, w.as_slice())
}

/// The bytes of the token that opens a beatmap file.
pub open spec fn file_header_word() -> Seq<u8> {
    seq![111u8, 115, 117, 32, 102, 105, 108, 101, 32, 102, 111, 114, 109, 97, 116, 32, 118]
}

/// The bytes of the token that opens a beatmap file.
pub fn file_header_bytes() -> (r: [u8; 17])
    ensures
        r@ == file_header_word(),
{
    let r: [u8; 17] = [111u8, 115, 117, 32, 102, 105, 108, 101, 32, 102, 111, 114, 109, 97, 116, 32, 118];
    assert(r@ =~= file_header_word());
    r
}

/// Whether `s` is the token that opens a beatmap file.
pub fn is_file_header(s: &[u8]) -> (r: bool)
    ensures
        r == (s@ == file_header_word()),
{
    let w = file_header_bytes();
    bytes_eq(s, w.as_slice())
}

/// The bytes of the token that starts a comment.
pub open spec fn comment_word() -> Seq<u8> {
    seq![47u8, 47]
}

/// The bytes of the token that starts a comment.
pub fn comment_bytes() -> (r: [u8; 2])
    ensures
        r@ == comment_word(),
{
    let r: [u8; 2] = [47u8, 47];
    assert(r@ =~= comment_word());
    r
}

/// Whether `s` is the token that starts a comment.
pub fn is_comment(s: &[u8]) -> (r: bool)
    ensures
        r == (s@ == comment_word()),
{
    let w = comment_bytes();
    bytes_eq(s, w.as_slice())
}

} // verus!
