use minitokio::fibonacci_1;
use minitokio::fibonacci_2;
use minitokio::functional_quicksort;
use minitokio::my_quicksort;
use rand::rngs::SmallRng;
use rand::thread_rng;
use rand::Rng;
use rand::SeedableRng;

#[test]
fn sorts() {
    let mut rng = SmallRng::from_rng(thread_rng()).unwrap();

    let mut big_input = vec![0_u32; 2_048 * 2];
    rng.fill(&mut big_input[..]);

    my_quicksort(&mut big_input);

    let mut sorted_data = big_input.clone();
    sorted_data.sort();

    big_input.iter().take(10).for_each(|x| {
        println!("{x}");
    });
    assert_eq!(big_input, sorted_data);
}

#[test]
fn quicksort_small_inputs() {
    let mut v = vec![3_u32, 1, 2];
    my_quicksort(&mut v);
    assert_eq!(v, vec![1, 2, 3]);

    let mut empty: Vec<u32> = vec![];
    my_quicksort(&mut empty);
    assert_eq!(empty, Vec::<u32>::new());

    let mut one = vec![9_u32];
    my_quicksort(&mut one);
    assert_eq!(one, vec![9]);

    let mut dup = vec![5_u32, 5, 1, 5, 0];
    my_quicksort(&mut dup);
    assert_eq!(dup, vec![0, 1, 5, 5, 5]);
}

#[test]
fn functional_quicksort_leaves_input_alone() {
    let mut v = vec![3_u32, 1, 2];
    functional_quicksort(&mut v);
    assert_eq!(v, vec![3, 1, 2]);

    let mut one = vec![4_u32];
    functional_quicksort(&mut one);
    assert_eq!(one, vec![4]);
}

#[test]
fn fibonacci_values() {
    assert_eq!(fibonacci_1(0), 1);
    assert_eq!(fibonacci_1(1), 1);
    assert_eq!(fibonacci_1(2), 2);
    assert_eq!(fibonacci_1(10), 89);
    assert_eq!(fibonacci_2(0), 1);
    assert_eq!(fibonacci_2(1), 1);
    assert_eq!(fibonacci_2(2), 2);
    assert_eq!(fibonacci_2(10), 89);
    for n in 0..25 {
        assert_eq!(fibonacci_1(n), fibonacci_2(n));
    }
}
