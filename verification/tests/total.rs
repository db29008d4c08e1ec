use flatlanders::shadow::TAN_DEN;
use flatlanders::world::ShadowLen;
use flatlanders::world::World;

fn finite_num(len: ShadowLen) -> u64 {
    match len {
        ShadowLen::Finite { num, .. } => num,
        ShadowLen::Infinite => panic!("the total of a world is always finite"),
    }
}

#[test]
fn total_shadows_len_empty_world() {
    let mut world = World::new(45, 5).unwrap();
    assert_eq!(world.total_shadows_len(), ShadowLen::Finite { num: 0, den: TAN_DEN });
}

#[test]
fn total_shadows_len_single_flatlander() {
    let mut world = World::new(45, 5).unwrap();
    world.add_flatlander(0, 2).unwrap();
    let len = world.total_shadows_len();
    assert!(finite_num(len) > 0, "La sombra debe tener longitud positiva");
}

#[test]
fn total_shadows_len_multiple_flatlanders() {
    let mut world = World::new(45, 5).unwrap();
    world.add_flatlander(0, 2).unwrap();
    world.add_flatlander(3, 1).unwrap();
    let len = world.total_shadows_len();
    assert!(finite_num(len) > 0, "La suma de sombras debe ser positiva");
}

#[test]
fn total_shadows_len_overlapping_shadows() {
    let mut world = World::new(45, 5).unwrap();
    world.add_flatlander(0, 2).unwrap();
    world.add_flatlander(1, 2).unwrap();
    let len = world.total_shadows_len();
    // Overlapping shadows must not add up to the naive sum.
    let mut world_no_overlap = World::new(45, 5).unwrap();
    world_no_overlap.add_flatlander(0, 2).unwrap();
    world_no_overlap.add_flatlander(10, 2).unwrap();
    let len_no_overlap = world_no_overlap.total_shadows_len();
    assert!(
        finite_num(len) < finite_num(len_no_overlap),
        "Las sombras superpuestas deben sumar menos que las separadas"
    );
}

#[test]
fn single_flatlander_exact_length() {
    // At 45 degrees the shadow of a height-2 inhabitant has length exactly 2.
    let mut world = World::new(45, 5).unwrap();
    world.add_flatlander(7, 2).unwrap();
    assert_eq!(world.total_shadows_len(), ShadowLen::Finite { num: 2 * TAN_DEN, den: TAN_DEN });
}

#[test]
fn overlapping_shadows_exact_merged_length() {
    // Shadows [0, 2] and [1, 3] at 45 degrees merge into [0, 3]: length 3, not 4.
    let mut world = World::new(45, 5).unwrap();
    world.add_flatlander(0, 2).unwrap();
    world.add_flatlander(1, 2).unwrap();
    assert_eq!(world.total_shadows_len(), ShadowLen::Finite { num: 3 * TAN_DEN, den: TAN_DEN });
}

#[test]
fn disjoint_shadows_exact_summed_length() {
    // Shadows [0, 2] and [10, 12] at 45 degrees are disjoint: length 4.
    let mut world = World::new(45, 5).unwrap();
    world.add_flatlander(0, 2).unwrap();
    world.add_flatlander(10, 2).unwrap();
    assert_eq!(world.total_shadows_len(), ShadowLen::Finite { num: 4 * TAN_DEN, den: TAN_DEN });
}

#[test]
fn touching_shadows_merge_without_loss() {
    // Shadows [0, 2] and [2, 4] touch in one point: merged length is still 4.
    let mut world = World::new(45, 5).unwrap();
    world.add_flatlander(0, 2).unwrap();
    world.add_flatlander(2, 2).unwrap();
    assert_eq!(world.total_shadows_len(), ShadowLen::Finite { num: 4 * TAN_DEN, den: TAN_DEN });
}

#[test]
fn total_is_independent_of_insertion_order() {
    // Two inhabitants sharing a position with different heights: the total
    // must come out the same whichever arrived first.
    let mut first = World::new(60, 4).unwrap();
    first.add_flatlander(5, 10).unwrap();
    first.add_flatlander(5, 3).unwrap();
    first.add_flatlander(2, 1).unwrap();
    let mut second = World::new(60, 4).unwrap();
    second.add_flatlander(2, 1).unwrap();
    second.add_flatlander(5, 3).unwrap();
    second.add_flatlander(5, 10).unwrap();
    assert_eq!(first.total_shadows_len(), second.total_shadows_len());
}

#[test]
fn repeated_totals_are_identical() {
    let mut world = World::new(33, 5).unwrap();
    world.add_flatlander(100, 50).unwrap();
    world.add_flatlander(90, 7).unwrap();
    let once = world.total_shadows_len();
    let again = world.total_shadows_len();
    assert_eq!(once, again);
    world.add_flatlander(80, 1).unwrap();
    assert!(finite_num(world.total_shadows_len()) >= finite_num(once));
}

#[test]
fn steep_light_shortens_shadows() {
    // The same inhabitant throws a longer shadow under a shallower light.
    let mut low = World::new(10, 1).unwrap();
    low.add_flatlander(0, 100).unwrap();
    let mut high = World::new(80, 1).unwrap();
    high.add_flatlander(0, 100).unwrap();
    let low_len = low.total_shadows_len();
    let high_len = high.total_shadows_len();
    // num / den compared across denominators by cross-multiplication.
    let (ln, ld) = match low_len {
        ShadowLen::Finite { num, den } => (num as u128, den as u128),
        ShadowLen::Infinite => panic!("finite world"),
    };
    let (hn, hd) = match high_len {
        ShadowLen::Finite { num, den } => (num as u128, den as u128),
        ShadowLen::Infinite => panic!("finite world"),
    };
    assert!(ln * hd > hn * ld);
}
