use repolith::source::Source;
use repolith::types::{BuildError, Sha256};

struct MockSource;

impl Source for MockSource {
    fn current_sha(&self) -> Result<Sha256, BuildError> {
        Ok(Sha256([0; 32]))
    }

    fn fetch(&mut self) -> Result<(), BuildError> {
        Ok(())
    }
}

#[test]
fn test_source_is_object_safe() {
    // This line will fail to compile if `Source` is not object-safe.
    let _source: Box<dyn Source> = Box::new(MockSource);
}
