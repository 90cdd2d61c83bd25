use tiptop::sampling::{rr_sample, Model, SampleRequest};

#[test]
fn benefits_fix_the_root() {
    assert_eq!(rr_sample(Model::IC, Some(7)), SampleRequest::IcFrom { root: 7 });
    assert_eq!(rr_sample(Model::LT, Some(0)), SampleRequest::LtFrom { root: 0 });
}

#[test]
fn without_benefits_the_root_is_uniform() {
    assert_eq!(rr_sample(Model::IC, None), SampleRequest::IcUniform);
    assert_eq!(rr_sample(Model::LT, None), SampleRequest::LtUniform);
}
