use rand::distributions::IndependentSample;
use rand::thread_rng;
use statrs::distribution::Categorical;
use tiptop::sampling::{rr_sample, Model, SampleRequest};

#[test]
fn confirm_categorical() {
    // simple test to confirm 100% that categorical distribution works as intended.
    let c = Categorical::new(&[1.0, 2.0, 1.0, 1.0]).unwrap();
    for _ in 0..1000 {
        let i = c.ind_sample(&mut thread_rng());
        println!("{} {} {}", i, i.trunc(), i as usize);
        assert_eq!(i, i.trunc());
        assert_eq!(i.trunc() as usize, i as usize);
    }
}

#[test]
fn drawn_root_is_requested() {
    let c = Categorical::new(&[0.0, 3.0, 0.0]).unwrap();
    let root = c.ind_sample(&mut thread_rng()) as usize;
    assert_eq!(rr_sample(Model::LT, Some(root)), SampleRequest::LtFrom { root: 1 });
}
